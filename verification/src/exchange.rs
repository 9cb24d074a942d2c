//! Paths arriving from outside floaty by paste, and paths leaving by copy.
//!
//! A copied path comes as text (a terminal, a browser's address bar) or as the file
//! list Explorer puts on the clipboard. The clipboard itself, and asking the disk which
//! paths exist, are the caller's.

use vstd::prelude::*;
use crate::text::{
    chars_of, lead_len, push_utf16, split_on, lemma_split_push, lemma_split_nonempty, string_of,
    string_of_range, trail_len, trim_by, trim_spec, utf16_encode, is_white_space,
};

verus! {

broadcast use vstd::seq_lib::group_seq_properties;

/// A line without the carriage return of a `\r\n` ending.
pub open spec fn strip_cr(l: Seq<char>) -> Seq<char> {
    if l.len() > 0 && l.last() == '\r' { l.drop_last() } else { l }
}

/// The lines of `s`, as `str::lines` gives them: split at `\n`, a `\r` before the `\n`
/// dropped, and no empty line after a final `\n`.
pub open spec fn lines_spec(s: Seq<char>) -> Seq<Seq<char>> {
    let p = split_on(s, '\n');
    let body = p.drop_last().map_values(|l: Seq<char>| strip_cr(l));
    if p.last().len() == 0 { body } else { body.push(p.last()) }
}

/// The lines of `text`.
pub fn lines_of(text: &str) -> (r: Vec<String>)
    ensures
        r@.map_values(|l: String| l@) == lines_spec(text@),
{
    let v = chars_of(text);
    let mut out: Vec<String> = Vec::new();
    let mut start: usize = 0;
    let mut i: usize = 0;
    proof {
        assert(v@.take(0) =~= Seq::<char>::empty());
    }
    while i < v.len()
        invariant
            start <= i <= v.len(),
            v@ == text@,
            ({
                let p = split_on(v@.take(i as int), '\n');
                &&& p.len() == out@.len() + 1
                &&& p.last() == v@.subrange(start as int, i as int)
                &&& out@.map_values(|l: String| l@) == p.drop_last().map_values(|l: Seq<char>| strip_cr(l))
            }),
        decreases v.len() - i,
    {
        proof {
            assert(v@.take(i + 1) =~= v@.take(i as int).push(v@[i as int]));
            lemma_split_push(v@.take(i as int), v@[i as int], '\n');
            lemma_split_nonempty(v@.take(i as int), '\n');
        }
        let ghost before = out@;
        if v[i] == '\n' {
            let end = if i > start && v[i - 1] == '\r' { i - 1 } else { i };
            let line = string_of_range(&v, start, end);
            proof {
                let piece = v@.subrange(start as int, i as int);
                assert(line@ =~= strip_cr(piece));
            }
            out.push(line);
            start = i + 1;
            proof {
                let p0 = split_on(v@.take(i as int), '\n');
                let p1 = split_on(v@.take(i + 1), '\n');
                assert(p1.drop_last() =~= p0);
                assert(p0 =~= p0.drop_last().push(p0.last()));
                assert(p0.map_values(|l: Seq<char>| strip_cr(l)) =~= p0.drop_last().map_values(|l: Seq<char>| strip_cr(l)).push(strip_cr(p0.last())));
                assert(out@.map_values(|l: String| l@) =~= before.map_values(|l: String| l@).push(line@));
                assert(out@.map_values(|l: String| l@) =~= p1.drop_last().map_values(|l: Seq<char>| strip_cr(l)));
            }
        } else {
            proof {
                let p0 = split_on(v@.take(i as int), '\n');
                let p1 = split_on(v@.take(i + 1), '\n');
                assert(p1.drop_last() =~= p0.drop_last());
                assert(v@.subrange(start as int, i + 1) =~= v@.subrange(start as int, i as int).push(v@[i as int]));
            }
        }
        i += 1;
    }
    assert(v@.take(v.len() as int) =~= v@);
    if start < v.len() {
        let last = string_of_range(&v, start, v.len());
        out.push(last);
        proof {
            let p = split_on(text@, '\n');
            assert(out@.map_values(|l: String| l@) =~= p.drop_last().map_values(|l: Seq<char>| strip_cr(l)).push(p.last()));
        }
    }
    out
}

/// A line made into a path: white space and quotes around it dropped.
pub open spec fn unquoted(l: Seq<char>) -> Seq<char> {
    trim_by(trim_spec(l), |c: char| c == '"')
}

/// The candidate paths in a clipboard's text: one per line, white space and quotes
/// around it dropped, blank lines skipped.
pub open spec fn path_candidates(text: Seq<char>) -> Seq<Seq<char>> {
    lines_spec(text).filter_map(|l: Seq<char>| candidate(l))
}

/// A line's path, unless it is only white space and quotes.
pub open spec fn candidate(l: Seq<char>) -> Option<Seq<char>> {
    if unquoted(l).len() > 0 { Some(unquoted(l)) } else { None }
}

/// `v` without the `"`s around it.
fn strip_quotes(v: &Vec<char>) -> (r: Vec<char>)
    ensures
        r@ == trim_by(v@, |c: char| c == '"'),
{
    let mut a: usize = 0;
    while a < v.len() && v[a] == '"'
        invariant
            a <= v.len(),
            lead_len(v@, |c: char| c == '"') == a + lead_len(v@.skip(a as int), |c: char| c == '"'),
        decreases v.len() - a,
    {
        assert(v@.skip(a as int).skip(1) =~= v@.skip(a + 1));
        a += 1;
    }
    assert(lead_len(v@.skip(a as int), |c: char| c == '"') == 0);
    let ghost s = v@.skip(a as int);
    let mut b: usize = v.len();
    while b > a && v[b - 1] == '"'
        invariant
            a <= b <= v.len(),
            s == v@.skip(a as int),
            trail_len(s, |c: char| c == '"') == (v.len() - b) + trail_len(s.take(b - a), |c: char| c == '"'),
        decreases b,
    {
        assert(s.take(b - a).drop_last() =~= s.take(b - a - 1));
        b -= 1;
    }
    assert(s.take(v.len() - a) =~= s);
    let r = vstd::slice::slice_subrange(v.as_slice(), a, b);
    let out = vstd::slice::slice_to_vec(r);
    assert(out@ =~= s.take(s.len() - trail_len(s, |c: char| c == '"')));
    out
}

/// The paths a clipboard's text names, in order: every line that is more than white
/// space and quotes. Which of them exist, and so are pasted, is the disk's to say: a
/// sentence on the clipboard is not a reason to create a file called after it.
pub fn paths_from_text(text: &str) -> (r: Vec<String>)
    ensures
        r@.map_values(|l: String| l@) == path_candidates(text@),
{
    let lines = lines_of(text);
    let ghost ls = lines_spec(text@);
    let mut out: Vec<String> = Vec::new();
    let mut i: usize = 0;
    while i < lines.len()
        invariant
            i <= lines.len(),
            lines@.map_values(|l: String| l@) == ls,
            ls == lines_spec(text@),
            out@.map_values(|l: String| l@) == ls.take(i as int).filter_map(|l: Seq<char>| candidate(l)),
        decreases lines.len() - i,
    {
        let t = crate::text::trim(lines[i].as_str());
        let u = strip_quotes(&t);
        proof {
            assert(ls[i as int] == lines@[i as int]@);
            assert(ls.take(i + 1).drop_last() =~= ls.take(i as int));
            assert(ls.take(i + 1).last() == ls[i as int]);
        }
        assert(u@ == unquoted(ls[i as int]));
        let ghost before = out@;
        if u.len() > 0 {
            let s = string_of(&u);
            out.push(s);
            assert(candidate(ls[i as int]) == Some(unquoted(ls[i as int])));
            assert(ls.take(i + 1).filter_map(|l: Seq<char>| candidate(l)) == ls.take(i as int).filter_map(|l: Seq<char>| candidate(l)) + seq![unquoted(ls[i as int])]);
            assert(out@.map_values(|l: String| l@) =~= before.map_values(|l: String| l@) + seq![s@]);
        } else {
            assert(candidate(ls[i as int]) is None);
            assert(ls.take(i + 1).filter_map(|l: Seq<char>| candidate(l)) == ls.take(i as int).filter_map(|l: Seq<char>| candidate(l)));
        }
        i += 1;
    }
    assert(ls.take(lines.len() as int) =~= ls);
    out
}

/// The file list Explorer's Copy puts on the clipboard: every path in UTF-16 with a NUL
/// after it, and one more NUL to end the list.
pub open spec fn wide_list(paths: Seq<String>) -> Seq<u16>
    decreases paths.len(),
{
    if paths.len() == 0 {
        seq![]
    } else {
        wide_list(paths.drop_last()) + utf16_encode(paths.last()@).push(0)
    }
}

/// The names of a file copy, ready for the clipboard; nothing to copy is refused.
pub fn drop_file_list(paths: &[String]) -> (r: Result<Vec<u16>, String>)
    ensures
        paths@.len() == 0 ==> (r matches Err(e) && e@ == "nothing to copy"@),
        paths@.len() > 0 ==> (r matches Ok(names) && names@ == wide_list(paths@).push(0)),
{
    if paths.len() == 0 {
        return Err(crate::text::to_string("nothing to copy"));
    }
    let mut names: Vec<u16> = Vec::new();
    let mut i: usize = 0;
    while i < paths.len()
        invariant
            i <= paths.len(),
            names@ == wide_list(paths@.take(i as int)),
        decreases paths.len() - i,
    {
        push_utf16(&mut names, paths[i].as_str());
        names.push(0);
        proof {
            assert(paths@.take(i + 1).drop_last() =~= paths@.take(i as int));
        }
        i += 1;
    }
    assert(paths@.take(paths.len() as int) =~= paths@);
    names.push(0);
    Ok(names)
}

/// The candidates whose `exists` is true, in order.
pub open spec fn existing_spec(candidates: Seq<Seq<char>>, exists: Seq<bool>) -> Seq<Seq<char>>
    decreases candidates.len(),
{
    if candidates.len() == 0 {
        seq![]
    } else if exists[candidates.len() - 1] {
        existing_spec(candidates.drop_last(), exists).push(candidates.last())
    } else {
        existing_spec(candidates.drop_last(), exists)
    }
}

/// What a paste of text pastes: the candidate paths (see `paths_from_text`) that the
/// disk says exist, `exists[i]` answering for `candidates[i]`, in their order. A sentence
/// or a path to nothing is dropped.
pub fn keep_existing(candidates: Vec<String>, exists: &[bool]) -> (r: Vec<String>)
    requires
        exists@.len() == candidates@.len(),
    ensures
        r@.map_values(|l: String| l@) == existing_spec(candidates@.map_values(|l: String| l@), exists@),
{
    let ghost cs = candidates@.map_values(|l: String| l@);
    let mut out: Vec<String> = Vec::new();
    let mut i: usize = 0;
    while i < candidates.len()
        invariant
            i <= candidates@.len(),
            exists@.len() == candidates@.len(),
            cs == candidates@.map_values(|l: String| l@),
            out@.map_values(|l: String| l@) == existing_spec(cs.take(i as int), exists@),
        decreases candidates.len() - i,
    {
        proof {
            assert(cs.take(i + 1).drop_last() =~= cs.take(i as int));
            assert(cs.take(i + 1).last() == candidates@[i as int]@);
        }
        let ghost before = out@;
        if exists[i] {
            let c = candidates[i].clone();
            out.push(c);
            assert(out@.map_values(|l: String| l@) =~= before.map_values(|l: String| l@).push(candidates@[i as int]@));
        }
        i += 1;
    }
    assert(cs.take(candidates@.len() as int) =~= cs);
    out
}

} // verus!
