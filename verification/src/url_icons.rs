//! Where an internet shortcut (`.url`, Steam's among them) says its icon is.
//!
//! The file is INI text; its `IconFile=` lines name an `.ico` on disk. Reading the
//! shortcut and pulling a PNG out of the `.ico` are the caller's: it tries the files
//! named here in order and keeps the first that gives an icon.

use vstd::prelude::*;
use crate::text::{chars_of, has_prefix, has_suffix, string_of, trim_spec};
use crate::exchange::{lines_of, lines_spec};

verus! {

broadcast use vstd::seq_lib::group_seq_properties;

/// The key of the line that names the icon.
pub open spec fn icon_key() -> Seq<char> {
    "IconFile="@
}

/// The `.ico` a line names: the line trimmed, the key stripped from its front, the
/// rest trimmed, and only where that ends in `.ico` or `.ICO`.
pub open spec fn icon_file_of(line: Seq<char>) -> Option<Seq<char>> {
    let t = trim_spec(line);
    if has_prefix(t, icon_key()) {
        let p = trim_spec(t.skip(icon_key().len() as int));
        if has_suffix(p, ".ico"@) || has_suffix(p, ".ICO"@) {
            Some(p)
        } else {
            None
        }
    } else {
        None
    }
}

/// Every `.ico` the shortcut text names, in the order of its lines.
pub open spec fn url_icon_files_spec(content: Seq<char>) -> Seq<Seq<char>> {
    lines_spec(content).filter_map(|l: Seq<char>| icon_file_of(l))
}

/// `s` starts with `p`.
fn starts(s: &Vec<char>, p: &str) -> (r: bool)
    ensures
        r == has_prefix(s@, p@),
{
    let pv = chars_of(p);
    crate::text::starts_with(s.as_slice(), pv.as_slice())
}

/// `s` ends with `p`.
fn ends(s: &Vec<char>, p: &str) -> (r: bool)
    ensures
        r == has_suffix(s@, p@),
{
    let pv = chars_of(p);
    crate::text::ends_with(s.as_slice(), pv.as_slice())
}

/// The `.ico` one line names, if it names one.
fn icon_file_of_line(line: &str) -> (r: Option<String>)
    ensures
        match r {
            Some(p) => icon_file_of(line@) == Some(p@),
            None => icon_file_of(line@) is None,
        },
{
    let t = crate::text::trim(line);
    proof {
        reveal_strlit("IconFile=");
        reveal_strlit(".ico");
        reveal_strlit(".ICO");
    }
    if !starts(&t, "IconFile=") {
        return None;
    }
    let rest = crate::text::string_of_range(&t, 9, t.len());
    assert(rest@ =~= t@.skip(icon_key().len() as int));
    let p = crate::text::trim(rest.as_str());
    if ends(&p, ".ico") || ends(&p, ".ICO") {
        Some(string_of(&p))
    } else {
        None
    }
}

/// The `.ico` files a `.url` shortcut's text names, in order.
pub fn url_icon_files(content: &str) -> (r: Vec<String>)
    ensures
        r@.map_values(|p: String| p@) == url_icon_files_spec(content@),
{
    let lines = lines_of(content);
    let ghost ls = lines_spec(content@);
    let mut out: Vec<String> = Vec::new();
    let mut i: usize = 0;
    while i < lines.len()
        invariant
            i <= lines.len(),
            lines@.map_values(|l: String| l@) == ls,
            ls == lines_spec(content@),
            out@.map_values(|p: String| p@) == ls.take(i as int).filter_map(|l: Seq<char>| icon_file_of(l)),
        decreases lines.len() - i,
    {
        let found = icon_file_of_line(lines[i].as_str());
        proof {
            assert(ls[i as int] == lines@[i as int]@);
            assert(ls.take(i + 1).drop_last() =~= ls.take(i as int));
            assert(ls.take(i + 1).last() == ls[i as int]);
        }
        let ghost before = out@;
        match found {
            Some(p) => {
                let ghost pv = p@;
                out.push(p);
                assert(ls.take(i + 1).filter_map(|l: Seq<char>| icon_file_of(l))
                    == ls.take(i as int).filter_map(|l: Seq<char>| icon_file_of(l)) + seq![pv]);
                assert(out@.map_values(|q: String| q@) =~= before.map_values(|q: String| q@) + seq![pv]);
            },
            None => {
                assert(ls.take(i + 1).filter_map(|l: Seq<char>| icon_file_of(l))
                    == ls.take(i as int).filter_map(|l: Seq<char>| icon_file_of(l)));
            },
        }
        i += 1;
    }
    assert(ls.take(lines.len() as int) =~= ls);
    out
}

} // verus!
