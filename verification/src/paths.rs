//! Windows paths, as the desktop compares them.
//!
//! A path is a sequence of components: an optional drive prefix (`C:`), an optional root
//! (written `\`), then the names between separators. Both `\` and `/` separate, empty
//! names and `.` are not components, and two paths are the same path when their
//! components are. UNC and verbatim prefixes (`\\server\share`, `\\?\`) are not told
//! apart from ordinary names; nothing on a desktop root is addressed that way.

use vstd::prelude::*;
use crate::text::{
    ascii_lower_seq, chars_eq, chars_of, eq_ignore_ascii_case, eq_ignore_case, push_char, push_str,
    string_of, string_of_range, to_string,
};

verus! {

broadcast use vstd::seq_lib::group_seq_properties;

/// The char sequences a vector of char vectors holds.
pub open spec fn seqs(v: Seq<Vec<char>>) -> Seq<Seq<char>> {
    Seq::new(v.len(), |i: int| v[i]@)
}

pub open spec fn is_sep(c: char) -> bool {
    c == '/' || c == '\\'
}

pub open spec fn is_ascii_letter(c: char) -> bool {
    ('A' <= c && c <= 'Z') || ('a' <= c && c <= 'z')
}

/// How many chars the drive prefix takes: 2 for `X:`, else 0.
pub open spec fn prefix_len(s: Seq<char>) -> int {
    if s.len() >= 2 && is_ascii_letter(s[0]) && s[1] == ':' { 2 } else { 0 }
}

/// Does the path have a root right after its prefix?
pub open spec fn has_root(s: Seq<char>) -> bool {
    prefix_len(s) < s.len() && is_sep(s[prefix_len(s)])
}

/// The pieces between separators, empty ones included, as a scan from the front
/// builds them: (finished pieces, the piece being built).
pub open spec fn scan(s: Seq<char>, k: int) -> (Seq<Seq<char>>, Seq<char>)
    decreases k,
{
    if k <= 0 {
        (seq![], seq![])
    } else {
        let (done, cur) = scan(s, k - 1);
        if is_sep(s[k - 1]) {
            (if is_name(cur) { done.push(cur) } else { done }, seq![])
        } else {
            (done, cur.push(s[k - 1]))
        }
    }
}

/// A piece that is a component: not empty, and not `.`.
pub open spec fn is_name(p: Seq<char>) -> bool {
    p.len() > 0 && p != seq!['.']
}

/// The named components of `s`, in order.
pub open spec fn names(s: Seq<char>) -> Seq<Seq<char>> {
    let (done, cur) = scan(s, s.len() as int);
    if is_name(cur) { done.push(cur) } else { done }
}

/// The root component, as it is written back.
pub open spec fn root_comp() -> Seq<char> {
    seq!['\\']
}

/// Every component of `s`: prefix, root, names.
pub open spec fn comps(s: Seq<char>) -> Seq<Seq<char>> {
    let p = prefix_len(s);
    let pre: Seq<Seq<char>> = if p == 2 { seq![s.take(2)] } else { seq![] };
    let root: Seq<Seq<char>> = if has_root(s) { seq![root_comp()] } else { seq![] };
    pre + root + names(s.skip(p))
}

/// How many of `comps(s)` are the prefix and the root.
pub open spec fn head_count(s: Seq<char>) -> int {
    (if prefix_len(s) == 2 { 1int } else { 0int }) + (if has_root(s) { 1int } else { 0int })
}

fn is_sep_exec(c: char) -> (r: bool)
    ensures
        r == is_sep(c),
{
    c == '/' || c == '\\'
}

fn is_name_exec(p: &Vec<char>) -> (r: bool)
    ensures
        r == is_name(p@),
{
    if p.len() == 0 {
        return false;
    }
    if p.len() == 1 && p[0] == '.' {
        assert(p@ =~= seq!['.']);
        return false;
    }
    if p.len() == 1 {
        assert(p@ != seq!['.']) by {
            if p@ == seq!['.'] {
                assert(p@[0] == '.');
            }
        }
    }
    true
}

fn prefix_len_exec(s: &[char]) -> (r: usize)
    ensures
        r as int == prefix_len(s@),
{
    if s.len() >= 2 && (('A' <= s[0] && s[0] <= 'Z') || ('a' <= s[0] && s[0] <= 'z')) && s[1] == ':' {
        2
    } else {
        0
    }
}

/// Does the path have a root right after its prefix?
pub fn has_root_exec(s: &[char]) -> (r: bool)
    ensures
        r == has_root(s@),
{
    let p = prefix_len_exec(s);
    p < s.len() && is_sep_exec(s[p])
}

/// The named components of `s[from..]`.
fn names_from(s: &[char], from: usize) -> (r: Vec<Vec<char>>)
    requires
        from <= s.len(),
    ensures
        seqs(r@) == names(s@.skip(from as int)),
{
    let ghost t = s@.skip(from as int);
    let mut done: Vec<Vec<char>> = Vec::new();
    let mut cur: Vec<char> = Vec::new();
    let mut i: usize = from;
    while i < s.len()
        invariant
            from <= i <= s.len(),
            t == s@.skip(from as int),
            (seqs(done@), cur@) == scan(t, i - from),
        decreases s.len() - i,
    {
        let c = s[i];
        assert(t[i - from] == c);
        if is_sep_exec(c) {
            if is_name_exec(&cur) {
                let ghost before = seqs(done@);
                done.push(cur);
                assert(seqs(done@) =~= before.push(scan(t, i - from).1));
            }
            cur = Vec::new();
            assert(cur@ =~= Seq::<char>::empty());
        } else {
            cur.push(c);
        }
        i += 1;
    }
    if is_name_exec(&cur) {
        let ghost before = seqs(done@);
        let ghost last = cur@;
        done.push(cur);
        assert(seqs(done@) =~= before.push(last));
    }
    done
}

/// Every component of `s`: the drive prefix, the root (as `\`), then the names.
pub fn components(s: &[char]) -> (r: Vec<Vec<char>>)
    ensures
        seqs(r@) == comps(s@),
{
    let p = prefix_len_exec(s);
    let mut r: Vec<Vec<char>> = Vec::new();
    if p == 2 {
        let mut pre: Vec<char> = Vec::new();
        pre.push(s[0]);
        pre.push(s[1]);
        assert(pre@ =~= s@.take(2));
        r.push(pre);
    }
    if p < s.len() && is_sep_exec(s[p]) {
        let mut root: Vec<char> = Vec::new();
        root.push('\\');
        assert(root@ =~= root_comp());
        r.push(root);
    }
    let ghost head = r@;
    let mut rest = names_from(s, p);
    let ghost tail = rest@;
    r.append(&mut rest);
    assert(seqs(r@) =~= seqs(head) + seqs(tail));
    assert(seqs(r@) =~= comps(s@));
    r
}

pub open spec fn is_drive(c: Seq<char>) -> bool {
    c.len() == 2 && c[1] == ':'
}

/// The components written back out: the first as it is, a root or a name after a root
/// or right after a drive as they are, every other name after a `\`.
pub open spec fn render(c: Seq<Seq<char>>) -> Seq<char>
    decreases c.len(),
{
    if c.len() == 0 {
        seq![]
    } else if c.len() == 1 {
        c[0]
    } else {
        let prev = render(c.drop_last());
        let last = c.last();
        if last == root_comp() || c[c.len() - 2] == root_comp() || (c.len() == 2 && is_drive(c[0])) {
            prev + last
        } else {
            prev + seq!['\\'] + last
        }
    }
}

fn is_root_exec(v: &Vec<char>) -> (r: bool)
    ensures
        r == (v@ == root_comp()),
{
    let r = v.len() == 1 && v[0] == '\\';
    proof {
        if v@ == root_comp() {
            assert(v@[0] == '\\');
        }
        if r {
            assert(v@ =~= root_comp());
        }
    }
    r
}

fn render_exec(c: &Vec<Vec<char>>, n: usize) -> (r: Vec<char>)
    requires
        n <= c.len(),
    ensures
        r@ == render(seqs(c@).take(n as int)),
    decreases n,
{
    let ghost cs = seqs(c@).take(n as int);
    if n == 0 {
        return Vec::new();
    }
    if n == 1 {
        assert(cs[0] == c[0]@);
        return c[0].clone();
    }
    let mut prev = render_exec(c, n - 1);
    assert(cs.drop_last() =~= seqs(c@).take(n - 1));
    let last = &c[n - 1];
    assert(cs.last() == last@);
    assert(cs[n - 2] == c[n - 2]@);
    assert(cs[0] == c[0]@);
    let glue = is_root_exec(last) || is_root_exec(&c[n - 2]) || (n == 2 && c[0].len() == 2 && c[0][1] == ':');
    if !glue {
        prev.push('\\');
    }
    let ghost p1 = prev@;
    let mut k: usize = 0;
    while k < last.len()
        invariant
            k <= last.len(),
            prev@ == p1 + last@.take(k as int),
        decreases last.len() - k,
    {
        prev.push(last[k]);
        k += 1;
        assert(prev@ =~= p1 + last@.take(k as int));
    }
    assert(last@.take(last.len() as int) =~= last@);
    assert(prev@ =~= render(cs));
    prev
}

/// The path made of components `c`.
pub fn render_components(c: &Vec<Vec<char>>) -> (r: String)
    ensures
        r@ == render(seqs(c@)),
{
    let v = render_exec(c, c.len());
    assert(seqs(c@).take(c.len() as int) =~= seqs(c@));
    string_of(&v)
}

// ------------------------------------------------------------------------------------
// File names, extensions, parents.
// ------------------------------------------------------------------------------------

pub open spec fn dot_dot() -> Seq<char> {
    seq!['.', '.']
}

/// The last component, when it is a name other than `..`.
pub open spec fn file_name_spec(s: Seq<char>) -> Option<Seq<char>> {
    let c = comps(s);
    if c.len() > head_count(s) && c.last() != dot_dot() {
        Some(c.last())
    } else {
        None
    }
}

/// The position of the last `.` in `f`.
pub open spec fn last_dot(f: Seq<char>) -> Option<int> {
    if exists|i: int| 0 <= i < f.len() && f[i] == '.' {
        Some(choose|i: int| 0 <= i < f.len() && f[i] == '.' && forall|j: int| i < j < f.len() ==> f[j] != '.')
    } else {
        None
    }
}

/// The part of a file name before its extension: all of it when there is no dot, or
/// when the only dot it has leads (`.bashrc`).
pub open spec fn stem_of(f: Seq<char>) -> Seq<char> {
    match last_dot(f) {
        Some(k) => if k == 0 { f } else { f.take(k) },
        None => f,
    }
}

/// The part after the last dot, when there is one that does not lead.
pub open spec fn ext_of(f: Seq<char>) -> Option<Seq<char>> {
    match last_dot(f) {
        Some(k) => if k == 0 { None } else { Some(f.skip(k + 1)) },
        None => None,
    }
}

pub open spec fn extension_spec(s: Seq<char>) -> Option<Seq<char>> {
    match file_name_spec(s) {
        Some(f) => ext_of(f),
        None => None,
    }
}

pub open spec fn parent_spec(s: Seq<char>) -> Option<Seq<char>> {
    let c = comps(s);
    if c.len() > head_count(s) {
        Some(render(c.drop_last()))
    } else {
        None
    }
}

/// Are `base`'s components the first components of `p`?
pub open spec fn starts_with_spec(p: Seq<char>, base: Seq<char>) -> bool {
    comps(base).is_prefix_of(comps(p))
}

fn head_count_exec(s: &[char]) -> (r: usize)
    ensures
        r as int == head_count(s@),
{
    let p = prefix_len_exec(s);
    let mut n: usize = if p == 2 { 1 } else { 0 };
    if p < s.len() && is_sep_exec(s[p]) {
        n += 1;
    }
    n
}

fn is_dot_dot(v: &Vec<char>) -> (r: bool)
    ensures
        r == (v@ == dot_dot()),
{
    let r = v.len() == 2 && v[0] == '.' && v[1] == '.';
    proof {
        if r {
            assert(v@ =~= dot_dot());
        }
        if v@ == dot_dot() {
            assert(v@[0] == '.' && v@[1] == '.');
        }
    }
    r
}

/// The last component of `path`, when it is a name other than `..`.
pub fn file_name(path: &str) -> (r: Option<Vec<char>>)
    ensures
        r matches Some(f) ==> file_name_spec(path@) == Some(f@),
        r is None <==> file_name_spec(path@) is None,
{
    let s = chars_of(path);
    let mut c = components(&s);
    let h = head_count_exec(&s);
    if c.len() > h {
        let ghost cs = seqs(c@);
        let last = c.pop().unwrap();
        assert(cs.last() == last@);
        if is_dot_dot(&last) {
            None
        } else {
            Some(last)
        }
    } else {
        None
    }
}

/// The position of the last `.` in `f`.
fn last_dot_exec(f: &Vec<char>) -> (r: Option<usize>)
    ensures
        r matches Some(k) ==> k < f.len(),
        r matches Some(k) ==> last_dot(f@) == Some(k as int),
        r is None <==> last_dot(f@) is None,
{
    let mut i: usize = f.len();
    while i > 0
        invariant
            i <= f.len(),
            forall|j: int| i <= j < f.len() ==> f@[j] != '.',
        decreases i,
    {
        if f[i - 1] == '.' {
            let k = i - 1;
            proof {
                let w = choose|w: int| 0 <= w < f@.len() && f@[w] == '.' && forall|j: int| w < j < f@.len() ==> f@[j] != '.';
                assert(w == k) by {
                    if w < k {
                        assert(f@[k as int] == '.');
                    }
                }
            }
            return Some(k);
        }
        i -= 1;
    }
    None
}

/// The extension of `path`'s file name, without the dot.
pub fn extension(path: &str) -> (r: Option<Vec<char>>)
    ensures
        r matches Some(e) ==> extension_spec(path@) == Some(e@),
        r is None <==> extension_spec(path@) is None,
{
    match file_name(path) {
        None => None,
        Some(f) => match last_dot_exec(&f) {
            None => None,
            Some(k) => {
                if k == 0 {
                    None
                } else {
                    let mut e: Vec<char> = Vec::new();
                    let mut i: usize = k + 1;
                    while i < f.len()
                        invariant
                            k + 1 <= i <= f.len(),
                            e@ == f@.subrange(k + 1, i as int),
                        decreases f.len() - i,
                    {
                        e.push(f[i]);
                        i += 1;
                        assert(e@ =~= f@.subrange(k + 1, i as int));
                    }
                    assert(e@ =~= f@.skip(k + 1));
                    Some(e)
                }
            },
        },
    }
}

/// The stem and the extension of a file name.
pub fn split_file_name(f: &Vec<char>) -> (r: (Vec<char>, Option<Vec<char>>))
    ensures
        r.0@ == stem_of(f@),
        r.1 matches Some(e) ==> ext_of(f@) == Some(e@),
        r.1 is None <==> ext_of(f@) is None,
{
    match last_dot_exec(f) {
        None => (f.clone(), None),
        Some(k) => {
            if k == 0 {
                (f.clone(), None)
            } else {
                let mut stem: Vec<char> = Vec::new();
                let mut ext: Vec<char> = Vec::new();
                let mut i: usize = 0;
                while i < f.len()
                    invariant
                        0 < k < f.len(),
                        i <= f.len(),
                        stem@ == f@.take(if i < k { i as int } else { k as int }),
                        ext@ == (if i <= k + 1 { Seq::<char>::empty() } else { f@.subrange(k + 1, i as int) }),
                    decreases f.len() - i,
                {
                    if i < k {
                        stem.push(f[i]);
                    } else if i > k {
                        ext.push(f[i]);
                    }
                    i += 1;
                    assert(stem@ =~= f@.take(if i < k { i as int } else { k as int }));
                    assert(ext@ =~= (if i <= k + 1 { Seq::<char>::empty() } else { f@.subrange(k + 1, i as int) }));
                }
                if f.len() == k + 1 {
                    assert(f@.skip(k + 1) =~= Seq::<char>::empty());
                } else {
                    assert(ext@ =~= f@.skip(k + 1));
                }
                (stem, Some(ext))
            }
        },
    }
}

/// The path without its last named component; nothing for a path that is only a prefix
/// and a root, or empty.
pub fn parent(path: &str) -> (r: Option<String>)
    ensures
        r matches Some(p) ==> parent_spec(path@) == Some(p@),
        r is None <==> parent_spec(path@) is None,
{
    let s = chars_of(path);
    let mut c = components(&s);
    let h = head_count_exec(&s);
    if c.len() > h {
        let ghost cs = seqs(c@);
        let _ = c.pop();
        assert(seqs(c@) =~= cs.drop_last());
        Some(render_components(&c))
    } else {
        None
    }
}

/// Does `path` lie under `base`, component by component?
pub fn path_starts_with(path: &str, base: &str) -> (r: bool)
    ensures
        r == starts_with_spec(path@, base@),
{
    let pc = chars_of(path);
    let bc = chars_of(base);
    let p = components(&pc);
    let b = components(&bc);
    assert(seqs(p@) == comps(path@));
    assert(seqs(b@) == comps(base@));
    if b.len() > p.len() {
        return false;
    }
    let mut i: usize = 0;
    while i < b.len()
        invariant
            i <= b.len() <= p.len(),
            seqs(p@) == comps(path@),
            seqs(b@) == comps(base@),
            forall|j: int| 0 <= j < i ==> p@[j]@ == b@[j]@,
        decreases b.len() - i,
    {
        if !chars_eq(&p[i], &b[i]) {
            assert(seqs(p@)[i as int] != seqs(b@)[i as int]);
            assert(!seqs(b@).is_prefix_of(seqs(p@))) by {
                if seqs(b@).is_prefix_of(seqs(p@)) {
                    assert(seqs(b@)[i as int] == seqs(p@).subrange(0, b.len() as int)[i as int]);
                }
            }
            return false;
        }
        i += 1;
    }
    assert(seqs(b@) =~= seqs(p@).take(b.len() as int));
    true
}

/// `dir` joined with a relative `name`: a `\` between them unless `dir` is empty, already
/// ends in a separator, or is a bare drive. A `name` with a prefix or a root replaces
/// `dir`.
pub open spec fn join_spec(dir: Seq<char>, name: Seq<char>) -> Seq<char> {
    if prefix_len(name) == 2 || has_root(name) {
        name
    } else if dir.len() == 0 || is_sep(dir.last()) || (dir.len() == 2 && prefix_len(dir) == 2) {
        dir + name
    } else {
        dir + seq!['\\'] + name
    }
}

/// `dir` joined with `name`.
pub fn join(dir: &str, name: &str) -> (r: String)
    ensures
        r@ == join_spec(dir@, name@),
{
    let n = chars_of(name);
    let d = chars_of(dir);
    let np = prefix_len_exec(&n);
    if np == 2 || (np < n.len() && is_sep_exec(n[np])) {
        return to_string(name);
    }
    let mut r = to_string(dir);
    if !(d.len() == 0 || is_sep_exec(d[d.len() - 1]) || (d.len() == 2 && prefix_len_exec(&d) == 2)) {
        push_char(&mut r, '\\');
    }
    push_str(&mut r, name);
    r
}

// ------------------------------------------------------------------------------------
// Joining a name onto a folder
// ------------------------------------------------------------------------------------

/// A single plain name: a component, with no separator and no drive colon in it.
pub open spec fn plain_name(n: Seq<char>) -> bool {
    &&& is_name(n)
    &&& forall|i: int| 0 <= i < n.len() ==> !is_sep(#[trigger] n[i]) && n[i] != ':'
}

/// The scan of a text up to a point reads only the text before that point.
proof fn lemma_scan_prefix(x: Seq<char>, y: Seq<char>, k: int)
    requires
        0 <= k <= x.len(),
    ensures
        scan(x + y, k) == scan(x, k),
    decreases k,
{
    if k > 0 {
        lemma_scan_prefix(x, y, k - 1);
        assert((x + y)[k - 1] == x[k - 1]);
    }
}

/// Scanning on into a plain name keeps the finished pieces and builds the name.
proof fn lemma_scan_into_name(x: Seq<char>, n: Seq<char>, j: int)
    requires
        0 <= j <= n.len(),
        forall|i: int| 0 <= i < n.len() ==> !is_sep(#[trigger] n[i]),
    ensures
        scan(x + n, x.len() + j) == (scan(x, x.len() as int).0, scan(x, x.len() as int).1 + n.take(j)),
    decreases j,
{
    if j == 0 {
        lemma_scan_prefix(x, n, x.len() as int);
        assert(n.take(0) =~= Seq::<char>::empty());
        assert(scan(x, x.len() as int).1 + n.take(0) =~= scan(x, x.len() as int).1);
    } else {
        lemma_scan_into_name(x, n, j - 1);
        assert((x + n)[x.len() + j - 1] == n[j - 1]);
        assert(scan(x, x.len() as int).1 + n.take(j) =~= (scan(x, x.len() as int).1 + n.take(j - 1)).push(n[j - 1]));
    }
}

/// The named components of `x` then `n`, when `x` is empty or ends in a separator.
proof fn lemma_names_after_sep(x: Seq<char>, n: Seq<char>)
    requires
        plain_name(n),
        x.len() == 0 || is_sep(x.last()),
    ensures
        names(x + n) == names(x).push(n),
{
    lemma_scan_into_name(x, n, n.len() as int);
    assert(n.take(n.len() as int) =~= n);
    assert((x + n).len() == x.len() + n.len());
    if x.len() > 0 {
        assert(scan(x, x.len() as int).1 == Seq::<char>::empty());
    }
    assert(Seq::<char>::empty() + n =~= n);
}

/// The named components of `x`, a separator, then `n`.
proof fn lemma_names_sep_name(x: Seq<char>, n: Seq<char>)
    requires
        plain_name(n),
    ensures
        names(x + seq!['\\'] + n) == names(x).push(n),
{
    let xs = x + seq!['\\'];
    lemma_scan_prefix(x, seq!['\\'], x.len() as int);
    assert(xs[x.len() as int] == '\\');
    assert(scan(xs, xs.len() as int).0 == names(x));
    lemma_names_after_sep(xs, n);
}

/// Joining a plain name onto a folder adds it as the last component, and nothing else
/// changes: the joined path names an item directly inside the folder.
pub proof fn a_joined_name_is_the_last_component(d: Seq<char>, n: Seq<char>)
    requires
        plain_name(n),
    ensures
        comps(join_spec(d, n)) == comps(d).push(n),
{
    let j = join_spec(d, n);
    assert(prefix_len(n) == 0 && !has_root(n)) by {
        if n.len() >= 2 {
            assert(n[1] != ':');
        }
        if n.len() > 0 {
            assert(!is_sep(n[0]));
        }
    }
    let p = prefix_len(d);
    if d.len() == 0 {
        assert(j == n);
        assert(d + n =~= n);
        lemma_names_after_sep(d, n);
        assert(n.skip(0) =~= n && d.skip(0) =~= d);
        assert(comps(d) =~= Seq::<Seq<char>>::empty());
    } else {
        // the drive prefix and the root are the folder's
        assert(prefix_len(j) == p && has_root(j) == has_root(d)) by {
            if d.len() >= 2 {
                assert(j[0] == d[0] && j[1] == d[1]);
            } else {
                assert(j[0] == d[0]);
                assert(j[1] == n[0] || j[1] == '\\');
            }
            if p < d.len() {
                assert(j[p] == d[p]);
            } else {
                assert(j[p] == n[0]);
            }
        }
        let a = d.skip(p);
        if is_sep(d.last()) || (d.len() == 2 && prefix_len(d) == 2) {
            assert(j == d + n);
            assert(j.skip(p) =~= a + n);
            if d.len() == 2 && prefix_len(d) == 2 && !is_sep(d.last()) {
                assert(a.len() == 0);
            } else {
                assert(a.len() > 0 ==> a.last() == d.last());
            }
            lemma_names_after_sep(a, n);
        } else {
            assert(j == d + seq!['\\'] + n);
            assert(j.skip(p) =~= a + seq!['\\'] + n);
            lemma_names_sep_name(a, n);
        }
        if p == 2 {
            assert(j.take(2) =~= d.take(2));
        }
        assert(comps(j) =~= comps(d).push(n));
    }
}

} // verus!
