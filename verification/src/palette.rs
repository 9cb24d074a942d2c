//! The launcher palette's matching: what "code" means, and in which order the answers
//! come.
//!
//! An exact name beats a name that starts with the query, which beats a match at a word
//! boundary, which beats a match inside a word, which beats the query's letters merely
//! appearing in order (`vsc` → *Visual Studio Code*). Ties keep the caller's order, which
//! is the order the desktop itself lists things in.

use vstd::prelude::*;
use crate::text::{
    char_is_alphanumeric, chars_of, contains, contains_str, has_prefix, is_alphanumeric,
    lowercase, starts_with, to_lowercase, trim_spec, trimmed, chars_eq, ends_with, has_suffix,
    string_of, string_of_range,
};

verus! {

/// How many rows a search may return.
pub const MAX_HITS: usize = 30;

/// One row: what the page draws, and what it sends back to be run.
pub struct PaletteHit {
    /// `app`, `file`, `folder` or `floatie` — how running it behaves.
    pub kind: String,
    pub title: String,
    /// The path for something on disk, the kind's own words for a widget.
    pub subtitle: String,
    /// An icon url, or `""` when there is none and the page should draw a letter.
    pub icon: String,
    /// The widget record, for a hit that is a floatie.
    pub id: Option<String>,
    /// The file or folder to open, for a hit that is one.
    pub path: Option<String>,
}

/// Does the query begin a word inside the text: at some char after the first whose
/// predecessor is not a letter or a digit?
pub open spec fn starts_a_word_spec(text: Seq<char>, query: Seq<char>) -> bool {
    exists|i: int| 0 < i < text.len() && !is_alphanumeric(#[trigger] text[i - 1]) && has_prefix(text.skip(i), query)
}

/// Are the query's chars in the text, in order? Matched greedily, as a scan does.
pub open spec fn is_subsequence_spec(query: Seq<char>, text: Seq<char>) -> bool
    decreases text.len(),
{
    if query.len() == 0 {
        true
    } else if text.len() == 0 {
        false
    } else if query[0] == text[0] {
        is_subsequence_spec(query.skip(1), text.skip(1))
    } else {
        is_subsequence_spec(query, text.skip(1))
    }
}

/// How well `text` answers `query`: lower is better, `None` is no answer at all. Both are
/// compared lower-cased, the query without surrounding white space.
pub open spec fn score_spec(query: Seq<char>, text: Seq<char>) -> Option<u8> {
    let q = lowercase(trim_spec(query));
    let t = lowercase(text);
    if q.len() == 0 {
        Some(0)
    } else if t == q {
        Some(0)
    } else if has_prefix(t, q) {
        Some(1)
    } else if starts_a_word_spec(t, q) {
        Some(2)
    } else if contains_str(t, q) {
        Some(3)
    } else if is_subsequence_spec(q, t) {
        Some(4)
    } else {
        None
    }
}

fn starts_a_word(text: &[char], query: &[char]) -> (r: bool)
    ensures
        r == starts_a_word_spec(text@, query@),
{
    let mut i: usize = 1;
    while i < text.len()
        invariant
            1 <= i,
            forall|j: int| 0 < j < i && j < text.len() ==> !(!is_alphanumeric(#[trigger] text@[j - 1]) && has_prefix(text@.skip(j), query@)),
        decreases text.len() - i,
    {
        if !char_is_alphanumeric(text[i - 1]) {
            let mut rest: Vec<char> = Vec::new();
            let mut k: usize = i;
            while k < text.len()
                invariant
                    i <= k <= text.len(),
                    rest@ == text@.subrange(i as int, k as int),
                decreases text.len() - k,
            {
                rest.push(text[k]);
                k += 1;
                assert(rest@ =~= text@.subrange(i as int, k as int));
            }
            assert(rest@ =~= text@.skip(i as int));
            if starts_with(&rest, query) {
                return true;
            }
        }
        i += 1;
    }
    false
}

fn is_subsequence(query: &[char], text: &[char]) -> (r: bool)
    ensures
        r == is_subsequence_spec(query@, text@),
{
    let mut q: usize = 0;
    let mut t: usize = 0;
    assert(query@.skip(0) =~= query@);
    assert(text@.skip(0) =~= text@);
    while q < query.len() && t < text.len()
        invariant
            q <= query.len(),
            t <= text.len(),
            is_subsequence_spec(query@, text@) == is_subsequence_spec(query@.skip(q as int), text@.skip(t as int)),
        decreases text.len() - t,
    {
        let ghost qs = query@.skip(q as int);
        let ghost ts = text@.skip(t as int);
        assert(qs.skip(1) =~= query@.skip(q + 1));
        assert(ts.skip(1) =~= text@.skip(t + 1));
        if query[q] == text[t] {
            q += 1;
        }
        t += 1;
    }
    if q == query.len() {
        assert(query@.skip(q as int).len() == 0);
        true
    } else {
        assert(text@.skip(t as int).len() == 0);
        false
    }
}

/// How well `text` answers `query`: lower is better, `None` is no answer at all.
pub fn score(query: &str, text: &str) -> (r: Option<u8>)
    ensures
        r == score_spec(query@, text@),
{
    let trimmed_query = trimmed(query);
    let q = chars_of(to_lowercase(trimmed_query.as_str()).as_str());
    if q.len() == 0 {
        return Some(0);
    }
    let t = chars_of(to_lowercase(text).as_str());
    if chars_eq(&t, &q) {
        return Some(0);
    }
    if starts_with(&t, &q) {
        return Some(1);
    }
    if starts_a_word(&t, &q) {
        return Some(2);
    }
    if contains(&t, &q) {
        return Some(3);
    }
    if is_subsequence(&q, &t) {
        return Some(4);
    }
    None
}

/// The indices `i < n` whose score is `s`, in increasing order.
pub open spec fn bucket(scores: Seq<Option<u8>>, s: u8, n: int) -> Seq<usize>
    decreases n,
{
    if n <= 0 {
        seq![]
    } else if scores[n - 1] == Some(s) {
        bucket(scores, s, n - 1).push((n - 1) as usize)
    } else {
        bucket(scores, s, n - 1)
    }
}

/// Every index that answers, best score first, and within a score in the order given.
pub open spec fn ranked(scores: Seq<Option<u8>>) -> Seq<usize> {
    let n = scores.len() as int;
    bucket(scores, 0, n) + bucket(scores, 1, n) + bucket(scores, 2, n) + bucket(scores, 3, n) + bucket(scores, 4, n)
}

/// The score of every key, in order.
pub open spec fn scores_of(query: Seq<char>, keys: Seq<String>) -> Seq<Option<u8>> {
    Seq::new(keys.len(), |i: int| score_spec(query, keys[i]@))
}

/// What `rank` returns: the first `limit` of the ranked indices.
pub open spec fn rank_spec(query: Seq<char>, keys: Seq<String>, limit: nat) -> Seq<usize> {
    let all = ranked(scores_of(query, keys));
    if limit < all.len() { all.take(limit as int) } else { all }
}

proof fn lemma_bucket_step(scores: Seq<Option<u8>>, s: u8, n: int)
    requires
        0 <= n < scores.len(),
    ensures
        bucket(scores, s, n + 1) == (if scores[n] == Some(s) { bucket(scores, s, n).push(n as usize) } else { bucket(scores, s, n) }),
{
}

/// The indices of `keys` that answer `query`, best first, capped at `limit`.
///
/// An empty query answers everything in the order given: the first page of what there
/// is, not nothing.
pub fn rank(query: &str, keys: &[String], limit: usize) -> (r: Vec<usize>)
    ensures
        r@ == rank_spec(query@, keys@, limit as nat),
{
    let mut scores: Vec<Option<u8>> = Vec::new();
    let mut i: usize = 0;
    while i < keys.len()
        invariant
            i <= keys.len(),
            scores@ == scores_of(query@, keys@).take(i as int),
        decreases keys.len() - i,
    {
        scores.push(score(query, keys[i].as_str()));
        i += 1;
        assert(scores@ =~= scores_of(query@, keys@).take(i as int));
    }
    assert(scores@ =~= scores_of(query@, keys@));
    let mut out: Vec<usize> = Vec::new();
    let mut s: u8 = 0;
    while s < 5
        invariant
            s <= 5,
            scores@ == scores_of(query@, keys@),
            out@ == (if s == 0 { Seq::<usize>::empty() } else if s == 1 {
                bucket(scores@, 0, scores.len() as int)
            } else if s == 2 {
                bucket(scores@, 0, scores.len() as int) + bucket(scores@, 1, scores.len() as int)
            } else if s == 3 {
                bucket(scores@, 0, scores.len() as int) + bucket(scores@, 1, scores.len() as int)
                    + bucket(scores@, 2, scores.len() as int)
            } else if s == 4 {
                bucket(scores@, 0, scores.len() as int) + bucket(scores@, 1, scores.len() as int)
                    + bucket(scores@, 2, scores.len() as int) + bucket(scores@, 3, scores.len() as int)
            } else {
                ranked(scores@)
            }),
        decreases 5 - s,
    {
        let ghost before = out@;
        let mut k: usize = 0;
        while k < scores.len()
            invariant
                k <= scores.len(),
                s < 5,
                out@ == before + bucket(scores@, s, k as int),
            decreases scores.len() - k,
        {
            proof {
                lemma_bucket_step(scores@, s, k as int);
            }
            if scores[k] == Some(s) {
                out.push(k);
            }
            k += 1;
            assert(out@ =~= before + bucket(scores@, s, k as int));
        }
        s += 1;
    }
    out.truncate(limit);
    out
}

// ------------------------------------------------------------------------------------
// Captions
// ------------------------------------------------------------------------------------

/// How many bytes a char takes in UTF-8.
pub open spec fn utf8_width(c: char) -> nat {
    let v = c as u32;
    if v < 0x80 { 1 } else if v < 0x800 { 2 } else if v < 0x10000 { 3 } else { 4 }
}

/// How many trailing chars of `s` make up exactly its last `k` bytes, if a char boundary
/// falls there.
pub open spec fn tail_chars(s: Seq<char>, k: nat) -> Option<nat>
    decreases s.len(),
{
    if k == 0 {
        Some(0)
    } else if s.len() == 0 || utf8_width(s.last()) > k {
        None
    } else {
        match tail_chars(s.drop_last(), (k - utf8_width(s.last())) as nat) {
            Some(n) => Some(n + 1),
            None => None,
        }
    }
}

/// `name` without its last `k` bytes; as it is when they end inside a char.
pub open spec fn cut_bytes(name: Seq<char>, k: nat) -> Seq<char> {
    match tail_chars(name, k) {
        Some(n) => name.take(name.len() - n),
        None => name,
    }
}

/// The caption of a launcher row: a shortcut reads as the app it launches, so `.lnk`
/// and `.url` come off (compared in lower case); a file keeps its extension; a folder
/// is its name.
pub open spec fn caption_spec(name: Seq<char>, is_dir: bool) -> Seq<char> {
    if is_dir {
        name
    } else if has_suffix(lowercase(name), ".lnk"@) || has_suffix(lowercase(name), ".url"@) {
        cut_bytes(name, 4)
    } else {
        name
    }
}

fn width_of(c: char) -> (r: u32)
    ensures
        r == utf8_width(c),
{
    let v = c as u32;
    if v < 0x80 { 1 } else if v < 0x800 { 2 } else if v < 0x10000 { 3 } else { 4 }
}

/// How many trailing chars of `v` make up its last `k` bytes.
fn tail_chars_exec(v: &Vec<char>, k: u32) -> (r: Option<usize>)
    requires
        k <= 4,
    ensures
        r matches Some(n) ==> tail_chars(v@, k as nat) == Some(n as nat) && n <= v.len(),
        r is None <==> tail_chars(v@, k as nat) is None,
{
    assert(v@.take(v.len() as int) =~= v@);
    let mut left: u32 = k;
    let mut n: usize = 0;
    while left > 0
        invariant
            n <= v.len(),
            left <= 4,
            n + left <= 4,
            tail_chars(v@, k as nat) == (match tail_chars(v@.take(v.len() - n), left as nat) {
                Some(m) => Some((m + n) as nat),
                None => None::<nat>,
            }),
        decreases left,
    {
        if n == v.len() {
            return None;
        }
        let c = v[v.len() - 1 - n];
        let w = width_of(c);
        let ghost t = v@.take(v.len() - n);
        assert(t.last() == c);
        assert(t.drop_last() =~= v@.take(v.len() - (n + 1)));
        if w > left {
            return None;
        }
        left = left - w;
        n = n + 1;
    }
    Some(n)
}

/// The caption of a launcher row.
pub fn palette_caption(name: &str, is_dir: bool) -> (r: String)
    ensures
        r@ == caption_spec(name@, is_dir),
{
    if is_dir {
        return crate::text::to_string(name);
    }
    let lower = chars_of(to_lowercase(name).as_str());
    let v = chars_of(name);
    if ends_with(&lower, &chars_of(".lnk")) || ends_with(&lower, &chars_of(".url")) {
        return match tail_chars_exec(&v, 4) {
            Some(n) => string_of_range(&v, 0, v.len() - n),
            None => string_of(&v),
        };
    }
    string_of(&v)
}

// ------------------------------------------------------------------------------------
// Laws
// ------------------------------------------------------------------------------------

/// A query that matches the text with its first char skipped matches the text.
proof fn lemma_subseq_skip_one(q: Seq<char>, t: Seq<char>)
    requires
        t.len() > 0,
        is_subsequence_spec(q, t.skip(1)),
    ensures
        is_subsequence_spec(q, t),
    decreases t.len(), 0nat,
{
    if q.len() > 0 && q[0] == t[0] {
        lemma_subseq_drop_first(q, t.skip(1));
    }
}

/// A query that matches the text still matches without its first char.
proof fn lemma_subseq_drop_first(q: Seq<char>, t: Seq<char>)
    requires
        q.len() > 0,
        is_subsequence_spec(q, t),
    ensures
        is_subsequence_spec(q.skip(1), t),
    decreases t.len(), 1nat,
{
    if t.len() > 0 {
        if q.skip(1).len() > 0 {
            if q[0] == t[0] {
                lemma_subseq_skip_one(q.skip(1), t);
            } else {
                lemma_subseq_drop_first(q, t.skip(1));
                lemma_subseq_skip_one(q.skip(1), t);
            }
        }
    }
}

proof fn lemma_prefix_is_subseq(q: Seq<char>, t: Seq<char>)
    requires
        has_prefix(t, q),
    ensures
        is_subsequence_spec(q, t),
    decreases q.len(),
{
    if q.len() > 0 {
        assert(t.take(q.len() as int)[0] == q[0]);
        assert(t.skip(1).take(q.skip(1).len() as int) =~= q.skip(1)) by {
            assert forall|k: int| 0 <= k < q.len() - 1 implies t.skip(1).take(q.len() - 1)[k] == q.skip(1)[k] by {
                assert(t.take(q.len() as int)[k + 1] == q[k + 1]);
            }
        }
        lemma_prefix_is_subseq(q.skip(1), t.skip(1));
    }
}

proof fn lemma_occurs_is_subseq(q: Seq<char>, t: Seq<char>, i: int)
    requires
        0 <= i <= t.len(),
        has_prefix(t.skip(i), q),
    ensures
        is_subsequence_spec(q, t),
    decreases i,
{
    if i == 0 {
        assert(t.skip(0) =~= t);
        lemma_prefix_is_subseq(q, t);
    } else {
        assert(t.skip(1).skip(i - 1) =~= t.skip(i));
        lemma_occurs_is_subseq(q, t.skip(1), i - 1);
        lemma_subseq_skip_one(q, t);
    }
}

/// The score answers exactly when the query's letters appear in the text, in order (both
/// lower-cased, the query trimmed): the exact, prefix, word and inside matches are each
/// such a match too. An empty query answers everything, first.
pub proof fn an_answer_is_the_letters_in_order(query: Seq<char>, text: Seq<char>)
    ensures
        score_spec(query, text) is Some <==> is_subsequence_spec(lowercase(trim_spec(query)), lowercase(text)),
        lowercase(trim_spec(query)).len() == 0 ==> score_spec(query, text) == Some(0u8),
{
    let q = lowercase(trim_spec(query));
    let t = lowercase(text);
    if score_spec(query, text) is Some && q.len() > 0 {
        if t == q {
            assert(t.skip(0) =~= t);
            assert(t.take(q.len() as int) =~= q);
            lemma_occurs_is_subseq(q, t, 0);
        } else if has_prefix(t, q) {
            assert(t.skip(0) =~= t);
            lemma_occurs_is_subseq(q, t, 0);
        } else if starts_a_word_spec(t, q) {
            let i = choose|i: int| 0 < i < t.len() && !is_alphanumeric(#[trigger] t[i - 1]) && has_prefix(t.skip(i), q);
            lemma_occurs_is_subseq(q, t, i);
        } else if contains_str(t, q) {
            let i = choose|i: int| crate::text::occurs_at(t, q, i);
            assert(t.skip(i).take(q.len() as int) =~= t.subrange(i, i + q.len()));
            lemma_occurs_is_subseq(q, t, i);
        }
    }
}

/// `a` comes before `b` in a ranking: a better score, or the same score and earlier.
pub open spec fn ranks_before(scores: Seq<Option<u8>>, a: usize, b: usize) -> bool {
    let (x, y) = (scores[a as int]->0, scores[b as int]->0);
    x < y || (x == y && a < b)
}

/// The buckets `0..m`, best first.
spec fn ranked_upto(scores: Seq<Option<u8>>, m: int) -> Seq<usize>
    decreases m,
{
    if m <= 0 { seq![] } else { ranked_upto(scores, m - 1) + bucket(scores, (m - 1) as u8, scores.len() as int) }
}

proof fn lemma_bucket(scores: Seq<Option<u8>>, s: u8, n: int)
    requires
        0 <= n <= scores.len() <= usize::MAX,
    ensures
        forall|i: int| 0 <= i < bucket(scores, s, n).len() ==> (#[trigger] bucket(scores, s, n)[i]) < n
            && scores[bucket(scores, s, n)[i] as int] == Some(s),
        forall|i: int, j: int| 0 <= i < j < bucket(scores, s, n).len()
            ==> #[trigger] bucket(scores, s, n)[i] < #[trigger] bucket(scores, s, n)[j],
        forall|k: int| 0 <= k < n && scores[k] == Some(s) ==> bucket(scores, s, n).contains(k as usize),
    decreases n,
{
    if n > 0 {
        lemma_bucket(scores, s, n - 1);
        let prev = bucket(scores, s, n - 1);
        if scores[n - 1] == Some(s) {
            assert(bucket(scores, s, n) == prev.push((n - 1) as usize));
            assert forall|k: int| 0 <= k < n && scores[k] == Some(s) implies bucket(scores, s, n).contains(k as usize) by {
                if k < n - 1 {
                    let w = choose|w: int| 0 <= w < prev.len() && prev[w] == k as usize;
                    assert(bucket(scores, s, n)[w] == k as usize);
                } else {
                    assert(bucket(scores, s, n)[prev.len() as int] == k as usize);
                }
            }
        }
    }
}

proof fn lemma_ranked_upto(scores: Seq<Option<u8>>, m: int)
    requires
        0 <= m <= 256,
        scores.len() <= usize::MAX,
    ensures
        forall|i: int| 0 <= i < ranked_upto(scores, m).len() ==> {
            let x = #[trigger] ranked_upto(scores, m)[i];
            &&& x < scores.len()
            &&& scores[x as int] is Some
            &&& scores[x as int]->0 < m
        },
        forall|i: int, j: int| 0 <= i < j < ranked_upto(scores, m).len()
            ==> ranks_before(scores, #[trigger] ranked_upto(scores, m)[i], #[trigger] ranked_upto(scores, m)[j]),
        forall|k: int| 0 <= k < scores.len() && scores[k] is Some && scores[k]->0 < m
            ==> ranked_upto(scores, m).contains(k as usize),
    decreases m,
{
    if m > 0 {
        lemma_ranked_upto(scores, m - 1);
        let a = ranked_upto(scores, m - 1);
        let b = bucket(scores, (m - 1) as u8, scores.len() as int);
        lemma_bucket(scores, (m - 1) as u8, scores.len() as int);
        let c = ranked_upto(scores, m);
        assert(c == a + b);
        assert forall|i: int| 0 <= i < c.len() implies {
            let x = #[trigger] c[i];
            &&& x < scores.len()
            &&& scores[x as int] is Some
            &&& scores[x as int]->0 < m
        } by {
            if i < a.len() {
                assert(c[i] == a[i]);
            } else {
                assert(c[i] == b[i - a.len()]);
            }
        }
        assert forall|i: int, j: int| 0 <= i < j < c.len() implies ranks_before(scores, #[trigger] c[i], #[trigger] c[j]) by {
            if j < a.len() {
                assert(c[i] == a[i] && c[j] == a[j]);
            } else if i >= a.len() {
                assert(c[i] == b[i - a.len()] && c[j] == b[j - a.len()]);
                assert(b[i - a.len()] < b[j - a.len()]);
            } else {
                assert(c[i] == a[i] && c[j] == b[j - a.len()]);
                assert(scores[a[i] as int]->0 < m - 1);
            }
        }
        assert forall|k: int| 0 <= k < scores.len() && scores[k] is Some && scores[k]->0 < m
            implies c.contains(k as usize) by {
            if scores[k]->0 < m - 1 {
                let w = choose|w: int| 0 <= w < a.len() && a[w] == k as usize;
                assert(c[w] == k as usize);
            } else {
                assert(scores[k] == Some((m - 1) as u8));
                let w = choose|w: int| 0 <= w < b.len() && b[w] == k as usize;
                assert(c[a.len() + w] == k as usize);
            }
        }
    }
}

proof fn lemma_scores_at_most_four(query: Seq<char>, keys: Seq<String>, k: int)
    requires
        0 <= k < keys.len(),
    ensures
        scores_of(query, keys)[k] matches Some(s) ==> s <= 4,
{
}

/// `rank` is the answers best first: each index it returns answers the query, every
/// earlier one ranks before every later one (a better score, or the same score and
/// earlier in the caller's order, so no index twice), and an answer left out is one
/// that the limit cut off, ranking after every one returned.
pub proof fn rank_is_best_first(query: Seq<char>, keys: Seq<String>, limit: nat)
    requires
        keys.len() <= usize::MAX,
    ensures
        ({
            let sc = scores_of(query, keys);
            let r = rank_spec(query, keys, limit);
            &&& r.len() <= limit
            &&& forall|i: int| 0 <= i < r.len() ==> (#[trigger] r[i]) < keys.len() && sc[r[i] as int] is Some
            &&& forall|i: int, j: int| 0 <= i < j < r.len() ==> ranks_before(sc, #[trigger] r[i], #[trigger] r[j])
            &&& forall|k: int| 0 <= k < keys.len() && (#[trigger] sc[k]) is Some && !r.contains(k as usize)
                ==> r.len() == limit && forall|i: int| 0 <= i < r.len() ==> ranks_before(sc, #[trigger] r[i], k as usize)
        }),
{
    let sc = scores_of(query, keys);
    let all = ranked(sc);
    lemma_ranked_upto(sc, 5);
    assert(all =~= ranked_upto(sc, 5)) by {
        reveal_with_fuel(ranked_upto, 6);
        assert(ranked_upto(sc, 0) =~= Seq::<usize>::empty());
    }
    let r = rank_spec(query, keys, limit);
    assert forall|k: int| 0 <= k < keys.len() && (#[trigger] sc[k]) is Some && !r.contains(k as usize)
        implies r.len() == limit && forall|i: int| 0 <= i < r.len() ==> ranks_before(sc, #[trigger] r[i], k as usize) by {
        lemma_scores_at_most_four(query, keys, k);
        assert(all.contains(k as usize));
        let p = choose|p: int| 0 <= p < all.len() && all[p] == k as usize;
        if limit >= all.len() {
            assert(r == all);
            assert(r[p] == k as usize);
        } else {
            assert(r == all.take(limit as int));
            if p < limit {
                assert(r[p] == k as usize);
            }
            assert forall|i: int| 0 <= i < r.len() implies ranks_before(sc, #[trigger] r[i], k as usize) by {
                assert(r[i] == all[i]);
            }
        }
    }
    assert forall|i: int, j: int| 0 <= i < j < r.len() implies ranks_before(sc, #[trigger] r[i], #[trigger] r[j]) by {
        assert(r[i] == all[i] && r[j] == all[j]);
    }
    assert forall|i: int| 0 <= i < r.len() implies (#[trigger] r[i]) < keys.len() && sc[r[i] as int] is Some by {
        assert(r[i] == all[i]);
    }
}

/// The query, lower-cased, occurs in the lower-cased text as one run of chars at `i`.
pub open spec fn runs_at(query: Seq<char>, text: Seq<char>, i: int) -> bool {
    let q = lowercase(trim_spec(query));
    let t = lowercase(text);
    0 <= i && i + q.len() <= t.len() && t.subrange(i, i + q.len()) == q
}

/// The closer the match, the better the score. An exact match is 0, a match at the
/// start at most 1, a match at the start of a later word at most 2, and a match anywhere
/// as one run of chars at most 3; 4 is only for a text that holds the query's letters in
/// order but nowhere together.
pub proof fn the_closer_the_match_the_better(query: Seq<char>, text: Seq<char>)
    ensures
        ({
            let q = lowercase(trim_spec(query));
            let t = lowercase(text);
            let r = score_spec(query, text);
            &&& (q.len() == 0 || t == q) ==> r == Some(0u8)
            &&& (q.len() <= t.len() && t.take(q.len() as int) == q) ==> (r matches Some(s) && s <= 1)
            &&& (exists|i: int| 0 < i < t.len() && !is_alphanumeric(#[trigger] t[i - 1])
                && q.len() <= t.len() - i && t.skip(i).take(q.len() as int) == q) ==> (r matches Some(s) && s <= 2)
            &&& (exists|i: int| runs_at(query, text, i)) ==> (r matches Some(s) && s <= 3)
            &&& r == Some(4u8) ==> !(exists|i: int| runs_at(query, text, i))
            &&& r matches Some(s) ==> s <= 4
        }),
{
    let q = lowercase(trim_spec(query));
    let t = lowercase(text);
    assert((exists|i: int| runs_at(query, text, i)) <==> contains_str(t, q)) by {
        if exists|i: int| runs_at(query, text, i) {
            let i = choose|i: int| runs_at(query, text, i);
            assert(crate::text::occurs_at(t, q, i));
        }
        if contains_str(t, q) {
            let i = choose|i: int| crate::text::occurs_at(t, q, i);
            assert(runs_at(query, text, i));
        }
    }
}

/// A text that holds the query as one run of chars ranks before one that only holds its
/// letters in order, wherever the two stand in the list.
pub proof fn a_run_ranks_before_scattered_letters(query: Seq<char>, keys: Seq<String>, a: int, b: int, i: int)
    requires
        keys.len() <= usize::MAX,
        0 <= a < keys.len(),
        0 <= b < keys.len(),
        runs_at(query, keys[a]@, i),
        score_spec(query, keys[b]@) == Some(4u8),
    ensures
        ranks_before(scores_of(query, keys), a as usize, b as usize),
{
    the_closer_the_match_the_better(query, keys[a]@);
    assert(exists|j: int| runs_at(query, keys[a]@, j));
    let sc = scores_of(query, keys);
    assert(sc[a] == score_spec(query, keys[a]@) && sc[b] == Some(4u8));
    assert(a as usize as int == a && b as usize as int == b);
}

} // verus!
