//! What a path on the desktop is, and where it may go: the kind a file floats as, the
//! rule for a path arriving from outside, and the labels of the windows that make up the
//! desktop layer.

use vstd::prelude::*;
use crate::paths::{
    comps, extension, extension_spec, file_name, parent, parent_spec, path_starts_with,
    starts_with_spec, components, seqs, is_sep,
};
use crate::text::{
    ascii_lower_seq, chars_eq, chars_of, concat, eq_ignore_ascii_case, eq_ignore_case, has_prefix,
    parse_unsigned, parse_unsigned_exec, push_char, push_dec, push_str, starts_with,
    string_of_range, to_ascii_lowercase, to_string, dec_digits,
};

verus! {

broadcast use vstd::seq_lib::group_seq_properties;

// ------------------------------------------------------------------------------------
// Kinds
// ------------------------------------------------------------------------------------

/// Extensions the Windows shell launches directly. Anything else that is not a
/// directory is a file: it floats with a document icon and opens with its default app.
pub open spec fn launchable_exts() -> Seq<Seq<char>> {
    seq![
        "exe"@, "lnk"@, "url"@, "bat"@, "cmd"@, "com"@, "scr"@, "msi"@, "appref-ms"@, "ps1"@,
        "psm1"@, "vbs"@, "vbe"@, "js"@, "jse"@, "wsf"@, "wsh"@, "hta"@, "cpl"@, "msc"@,
        "reg"@, "jar"@, "ahk"@,
    ]
}

fn launchable_list() -> (v: Vec<&'static str>)
    ensures
        v@.len() == launchable_exts().len(),
        forall|i: int| 0 <= i < v@.len() ==> (#[trigger] v@[i])@ == launchable_exts()[i],
{
    let v = vec![
        "exe", "lnk", "url", "bat", "cmd", "com", "scr", "msi", "appref-ms", "ps1", "psm1", "vbs",
        "vbe", "js", "jse", "wsf", "wsh", "hta", "cpl", "msc", "reg", "jar", "ahk",
    ];
    assert(v@.len() == launchable_exts().len());
    v
}

pub open spec fn is_launchable_spec(path: Seq<char>) -> bool {
    match extension_spec(path) {
        Some(e) => exists|i: int| 0 <= i < launchable_exts().len() && eq_ignore_ascii_case(e, #[trigger] launchable_exts()[i]),
        None => false,
    }
}

/// Does the shell launch this path directly?
pub fn is_launchable_target(path: &str) -> (r: bool)
    ensures
        r == is_launchable_spec(path@),
{
    match extension(path) {
        None => false,
        Some(e) => {
            let list = launchable_list();
            let mut i: usize = 0;
            while i < list.len()
                invariant
                    i <= list.len(),
                    extension_spec(path@) == Some(e@),
                    list@.len() == launchable_exts().len(),
                    forall|k: int| 0 <= k < list@.len() ==> (#[trigger] list@[k])@ == launchable_exts()[k],
                    forall|k: int| 0 <= k < i ==> !eq_ignore_ascii_case(e@, #[trigger] launchable_exts()[k]),
                decreases list.len() - i,
            {
                if eq_ignore_case(&e, &chars_of(list[i])) {
                    assert(eq_ignore_ascii_case(e@, launchable_exts()[i as int]));
                    return true;
                }
                i += 1;
            }
            false
        },
    }
}

pub open spec fn kind_for_path_spec(path: Seq<char>, is_dir: bool) -> Seq<char> {
    if is_dir {
        "folder"@
    } else if is_launchable_spec(path) {
        "app"@
    } else {
        "file"@
    }
}

/// Widget kind for a filesystem entry: folder, launchable app, or loose file.
pub fn kind_for_path(path: &str, is_dir: bool) -> (r: &'static str)
    ensures
        r@ == kind_for_path_spec(path@, is_dir),
{
    if is_dir {
        "folder"
    } else if is_launchable_target(path) {
        "app"
    } else {
        "file"
    }
}

/// Whether a path already is a shortcut, in which case the file can simply be copied:
/// that keeps its arguments, working directory and icon exactly.
pub fn is_lnk_path(path: &str) -> (r: bool)
    ensures
        r == (match extension_spec(path@) { Some(e) => eq_ignore_ascii_case(e, "lnk"@), None => false }),
{
    match extension(path) {
        Some(e) => eq_ignore_case(&e, &chars_of("lnk")),
        None => false,
    }
}

// ------------------------------------------------------------------------------------
// Where things may go
// ------------------------------------------------------------------------------------

/// A dragged item may only be moved into a folder when the pointed root owns it;
/// anything from outside is carried in as a shortcut instead.
pub fn can_move_into_folder(root: Option<&str>, src: &str) -> (r: bool)
    ensures
        r == (match root { Some(rt) => starts_with_spec(src@, rt@), None => false }),
{
    match root {
        Some(rt) => path_starts_with(src, rt),
        None => false,
    }
}

/// Where an item taken out of a folder goes: beside the folder when the folder lives on
/// disk, or where the item already is when the folder was made by grouping.
pub fn ungroup_dest_dir(folder_path: Option<&str>, src: &str) -> (r: Option<String>)
    ensures
        r matches Some(d) ==> (match folder_path { Some(fp) => parent_spec(fp@), None => parent_spec(src@) }) == Some(d@),
        r is None <==> (match folder_path { Some(fp) => parent_spec(fp@), None => parent_spec(src@) }) is None,
{
    match folder_path {
        Some(fp) => parent(fp),
        None => parent(src),
    }
}

/// The folders Windows owns, where moving a file breaks something.
pub open spec fn owned_dir_names() -> Seq<Seq<char>> {
    seq!["program files"@, "program files (x86)"@, "windows"@, "programdata"@]
}

pub open spec fn is_program_dir_spec(path: Seq<char>) -> bool {
    exists|i: int, k: int|
        0 <= i < comps(path).len() && 0 <= k < 4 && ascii_lower_seq(#[trigger] comps(path)[i]) == #[trigger] owned_dir_names()[k]
}

fn is_owned_name(c: &Vec<char>) -> (r: bool)
    ensures
        r == (exists|k: int| 0 <= k < 4 && ascii_lower_seq(c@) == #[trigger] owned_dir_names()[k]),
{
    let lower = to_ascii_lowercase(crate::text::string_of(c).as_str());
    let names = vec!["program files", "program files (x86)", "windows", "programdata"];
    assert(names@.len() == 4);
    let mut k: usize = 0;
    while k < 4
        invariant
            k <= 4,
            names@.len() == 4,
            lower@ == ascii_lower_seq(c@),
            forall|j: int| 0 <= j < 4 ==> (#[trigger] names@[j])@ == owned_dir_names()[j],
            forall|j: int| 0 <= j < k ==> ascii_lower_seq(c@) != #[trigger] owned_dir_names()[j],
        decreases 4 - k,
    {
        if chars_eq(&lower, &chars_of(names[k])) {
            return true;
        }
        k += 1;
    }
    false
}

/// Is this path inside somewhere Windows owns: a program's install directory, or the
/// system itself?
pub fn is_program_dir(path: &str) -> (r: bool)
    ensures
        r == is_program_dir_spec(path@),
{
    let pc = chars_of(path);
    let c = components(&pc);
    let mut i: usize = 0;
    while i < c.len()
        invariant
            i <= c.len(),
            seqs(c@) == comps(path@),
            forall|j: int, k: int| 0 <= j < i && 0 <= k < 4 ==> ascii_lower_seq(#[trigger] comps(path@)[j]) != #[trigger] owned_dir_names()[k],
        decreases c.len() - i,
    {
        assert(seqs(c@)[i as int] == c@[i as int]@);
        if is_owned_name(&c[i]) {
            return true;
        }
        i += 1;
    }
    false
}

/// Are these two paths on the same volume: are their first components the same,
/// without case?
pub open spec fn same_volume_spec(a: Seq<char>, b: Seq<char>) -> bool {
    comps(a).len() > 0 && comps(b).len() > 0 && eq_ignore_ascii_case(comps(a)[0], comps(b)[0])
}

/// Are these two paths on the same volume? (`C:\` vs `D:\`.)
pub fn same_volume(a: &str, b: &str) -> (r: bool)
    ensures
        r == same_volume_spec(a@, b@),
{
    let ac = chars_of(a);
    let bc = chars_of(b);
    let x = components(&ac);
    let y = components(&bc);
    if x.len() == 0 || y.len() == 0 {
        return false;
    }
    assert(seqs(x@)[0] == x@[0]@);
    assert(seqs(y@)[0] == y@[0]@);
    eq_ignore_case(&x[0], &y[0])
}

/// How a path arriving from outside should be brought in.
#[derive(Clone, Copy, Debug, PartialEq, Eq, Structural)]
pub enum Arrival {
    /// Already here, or on the same volume: nothing to copy, just a place to be.
    Move,
    /// A different volume: copy, the way Explorer does, and leave the original.
    Copy,
    /// Inside a program's install directory: a shortcut, because moving it would take the
    /// program out of the directory it needs to run from.
    Shortcut,
}

pub open spec fn arrival_spec(src: Seq<char>, already_here: bool, dest_dir: Seq<char>) -> Arrival {
    if already_here || (same_volume_spec(src, dest_dir) && !is_program_dir_spec(src)) {
        Arrival::Move
    } else if is_program_dir_spec(src) {
        Arrival::Shortcut
    } else {
        Arrival::Copy
    }
}

/// The rule for a path dropped onto the desktop from outside. `already_here` is the path
/// being inside the folder the desktop shows, which makes a paste of your own file a move
/// rather than a second copy.
pub fn arrival(src: &str, already_here: bool, dest_dir: &str) -> (r: Arrival)
    ensures
        r == arrival_spec(src@, already_here, dest_dir@),
{
    if already_here || same_volume(src, dest_dir) && !is_program_dir(src) {
        Arrival::Move
    } else if is_program_dir(src) {
        Arrival::Shortcut
    } else {
        Arrival::Copy
    }
}

// ------------------------------------------------------------------------------------
// The pointed root
// ------------------------------------------------------------------------------------

/// Whether a record mirrors one of the root's own entries: its path, without case, is the
/// root (without trailing separators) followed by one separator and a name that holds no
/// further separator.
pub open spec fn mirrors_root_entry_spec(root: Seq<char>, path: Seq<char>) -> bool {
    let r = ascii_lower_seq(crate::text::trim_end_by(root, |c: char| is_sep(c)));
    let p = ascii_lower_seq(path);
    r.len() > 0 && exists|cut: int|
        0 <= cut < p.len() && is_sep(#[trigger] p[cut])
            && (forall|j: int| cut < j < p.len() ==> !is_sep(p[j]))
            && p.take(cut) == r
}

/// The number of trailing separators of `v[..to]`.
fn trailing_seps(v: &[char], to: usize) -> (n: usize)
    requires
        to <= v.len(),
    ensures
        n as nat == crate::text::trail_len(v@.take(to as int), |c: char| is_sep(c)),
        n <= to,
    decreases to,
{
    if to > 0 && (v[to - 1] == '/' || v[to - 1] == '\\') {
        let n = trailing_seps(v, to - 1);
        assert(v@.take(to as int).drop_last() =~= v@.take(to - 1));
        n + 1
    } else {
        0
    }
}

/// Whether a record mirrors one of the root's own entries: a file or folder the root's
/// top-level listing would show. Case is folded, as Windows folds it.
pub fn mirrors_root_entry(root: &str, path: &str) -> (r: bool)
    ensures
        r == mirrors_root_entry_spec(root@, path@),
{
    let rc = chars_of(root);
    let t = trailing_seps(&rc, rc.len());
    assert(rc@.take(rc.len() as int) =~= rc@);
    let trimmed = string_of_range(&rc, 0, rc.len() - t);
    assert(trimmed@ =~= crate::text::trim_end_by(root@, |c: char| is_sep(c)));
    let r = to_ascii_lowercase(trimmed.as_str());
    if r.len() == 0 {
        return false;
    }
    let p = to_ascii_lowercase(path);
    let mut i: usize = p.len();
    while i > 0
        invariant
            i <= p.len(),
            p@ == ascii_lower_seq(path@),
            r@ == ascii_lower_seq(crate::text::trim_end_by(root@, |c: char| is_sep(c))),
            r@.len() > 0,
            forall|j: int| i <= j < p.len() ==> !is_sep(p@[j]),
        decreases i,
    {
        if p[i - 1] == '/' || p[i - 1] == '\\' {
            let cut = i - 1;
            let head = string_of_range(&p, 0, cut);
            let head_chars = chars_of(head.as_str());
            let same = chars_eq(&head_chars, &r);
            proof {
                if same {
                    assert(p@.take(cut as int) =~= head_chars@);
                    assert(is_sep(p@[cut as int]));
                } else {
                    assert forall|c: int|
                        0 <= c < p@.len() && is_sep(#[trigger] p@[c]) && (forall|j: int| c < j < p@.len() ==> !is_sep(p@[j]))
                        implies p@.take(c) != r@ by {
                        assert(c == cut) by {
                            if c < cut {
                                assert(is_sep(p@[cut as int]));
                            }
                        }
                        assert(p@.take(c) =~= head_chars@);
                    }
                }
            }
            return same;
        }
        i -= 1;
    }
    false
}

/// The argument that makes Explorer select an item: the flag, then the path in quotes,
/// the quotes part of the argument itself.
pub fn reveal_args(path: &str) -> (r: String)
    ensures
        r@ == "/select,\""@ + path@ + "\""@,
{
    let mut r = to_string("/select,\"");
    push_str(&mut r, path);
    push_str(&mut r, "\"");
    r
}

// ------------------------------------------------------------------------------------
// The windows of the desktop layer
// ------------------------------------------------------------------------------------

/// The overlay that is the desktop itself.
pub open spec fn desktop_layer() -> Seq<char> {
    "desktop-overlay"@
}

/// The overlay that holds the floaties pinned above other windows.
pub open spec fn top_layer() -> Seq<char> {
    "top-overlay"@
}

/// The label of the window a floatie is drawn in on its own.
pub fn widget_label(id: &str) -> (r: String)
    ensures
        r@ == "widget-"@ + id@,
{
    concat("widget-", id)
}

pub open spec fn is_desktop_layer_label_spec(label: Seq<char>) -> bool {
    label == desktop_layer() || label == top_layer() || has_prefix(label, desktop_layer() + "-"@)
        || has_prefix(label, top_layer() + "-"@) || has_prefix(label, "widget-"@)
}

/// Which windows belong to the desktop layer: the overlays, and floaties drawn as their
/// own windows. Those lose their taskbar button on purpose; every other window is an
/// ordinary window.
pub fn is_desktop_layer_label(label: &str) -> (r: bool)
    ensures
        r == is_desktop_layer_label_spec(label@),
{
    let l = chars_of(label);
    let d = chars_of("desktop-overlay");
    let t = chars_of("top-overlay");
    let dd = chars_of(concat("desktop-overlay", "-").as_str());
    let td = chars_of(concat("top-overlay", "-").as_str());
    let w = chars_of("widget-");
    chars_eq(&l, &d) || chars_eq(&l, &t) || starts_with(&l, &dd) || starts_with(&l, &td)
        || starts_with(&l, &w)
}

pub open spec fn overlay_index_spec(label: Seq<char>) -> Option<nat> {
    let rest = if has_prefix(label, desktop_layer()) {
        Some(label.skip(desktop_layer().len() as int))
    } else if has_prefix(label, top_layer()) {
        Some(label.skip(top_layer().len() as int))
    } else {
        None
    };
    match rest {
        None => None,
        Some(r) => if r.len() == 0 {
            Some(0)
        } else if r[0] == '-' {
            parse_unsigned(r.skip(1), usize::MAX as nat)
        } else {
            None
        },
    }
}

/// The screen an overlay window belongs to, read from its label: the plain labels are
/// the first screen's, `desktop-overlay-2` the second's.
pub fn overlay_index(label: &str) -> (r: Option<usize>)
    ensures
        r matches Some(i) ==> overlay_index_spec(label@) == Some(i as nat),
        r is None <==> overlay_index_spec(label@) is None,
{
    let l = chars_of(label);
    let d = chars_of("desktop-overlay");
    let t = chars_of("top-overlay");
    let start: usize;
    if starts_with(&l, &d) {
        start = d.len();
    } else if starts_with(&l, &t) {
        start = t.len();
    } else {
        return None;
    }
    if start == l.len() {
        return Some(0);
    }
    if l[start] != '-' {
        return None;
    }
    let digits = string_of_range(&l, start + 1, l.len());
    let dc = chars_of(digits.as_str());
    assert(dc@ =~= l@.skip(start as int).skip(1));
    match parse_unsigned_exec(&dc, usize::MAX as u64) {
        None => None,
        Some(v) => Some(v as usize),
    }
}

/// The label an overlay on screen `index` has; screen 0 keeps the plain label.
pub fn overlay_label(base: &str, index: usize) -> (r: String)
    ensures
        r@ == (if index == 0 { base@ } else { base@ + "-"@ + dec_digits(index as nat) }),
{
    if index == 0 {
        to_string(base)
    } else {
        let mut r = concat(base, "-");
        push_dec(&mut r, index as u64);
        r
    }
}

/// The folders Windows owns, by name: a path is inside one exactly when one of its
/// components is, ignoring ASCII case, `Program Files`, `Program Files (x86)`, `Windows`
/// or `ProgramData`.
pub proof fn a_program_dir_is_one_windows_owns(path: Seq<char>)
    ensures
        is_program_dir_spec(path) <==> exists|i: int| 0 <= i < comps(path).len() && ({
            let c = #[trigger] comps(path)[i];
            ||| eq_ignore_ascii_case(c, "program files"@)
            ||| eq_ignore_ascii_case(c, "program files (x86)"@)
            ||| eq_ignore_ascii_case(c, "windows"@)
            ||| eq_ignore_ascii_case(c, "programdata"@)
        }),
{
    reveal_strlit("program files");
    reveal_strlit("program files (x86)");
    reveal_strlit("windows");
    reveal_strlit("programdata");
    assert(ascii_lower_seq("program files"@) =~= "program files"@);
    assert(ascii_lower_seq("program files (x86)"@) =~= "program files (x86)"@);
    assert(ascii_lower_seq("windows"@) =~= "windows"@);
    assert(ascii_lower_seq("programdata"@) =~= "programdata"@);
    let names = owned_dir_names();
    assert(names[0] == "program files"@ && names[1] == "program files (x86)"@);
    assert(names[2] == "windows"@ && names[3] == "programdata"@);
    if is_program_dir_spec(path) {
        let (i, k) = choose|i: int, k: int|
            0 <= i < comps(path).len() && 0 <= k < 4 && ascii_lower_seq(#[trigger] comps(path)[i]) == #[trigger] owned_dir_names()[k];
        assert(0 <= k < 4);
    }
    if exists|i: int| 0 <= i < comps(path).len() && ({
            let c = #[trigger] comps(path)[i];
            ||| eq_ignore_ascii_case(c, "program files"@)
            ||| eq_ignore_ascii_case(c, "program files (x86)"@)
            ||| eq_ignore_ascii_case(c, "windows"@)
            ||| eq_ignore_ascii_case(c, "programdata"@)
        }) {
        let i = choose|i: int| 0 <= i < comps(path).len() && ({
            let c = #[trigger] comps(path)[i];
            ||| eq_ignore_ascii_case(c, "program files"@)
            ||| eq_ignore_ascii_case(c, "program files (x86)"@)
            ||| eq_ignore_ascii_case(c, "windows"@)
            ||| eq_ignore_ascii_case(c, "programdata"@)
        });
        let c = comps(path)[i];
        if eq_ignore_ascii_case(c, "program files"@) {
            assert(ascii_lower_seq(comps(path)[i]) == owned_dir_names()[0]);
        } else if eq_ignore_ascii_case(c, "program files (x86)"@) {
            assert(ascii_lower_seq(comps(path)[i]) == owned_dir_names()[1]);
        } else if eq_ignore_ascii_case(c, "windows"@) {
            assert(ascii_lower_seq(comps(path)[i]) == owned_dir_names()[2]);
        } else {
            assert(ascii_lower_seq(comps(path)[i]) == owned_dir_names()[3]);
        }
    }
}

/// Something dropped from inside a folder Windows owns, and not already here, is brought
/// in as a shortcut, never moved or copied out of it; anything else dropped is moved or
/// copied.
pub proof fn a_program_is_never_moved_out_of_its_place(src: Seq<char>, already_here: bool, dest_dir: Seq<char>)
    ensures
        (arrival_spec(src, already_here, dest_dir) == Arrival::Shortcut) <==> (!already_here
            && exists|i: int| 0 <= i < comps(src).len() && ({
                let c = #[trigger] comps(src)[i];
                ||| eq_ignore_ascii_case(c, "program files"@)
                ||| eq_ignore_ascii_case(c, "program files (x86)"@)
                ||| eq_ignore_ascii_case(c, "windows"@)
                ||| eq_ignore_ascii_case(c, "programdata"@)
            })),
{
    a_program_dir_is_one_windows_owns(src);
}

} // verus!
