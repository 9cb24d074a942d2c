//! Where an item goes, and what it is called when it gets there.
//!
//! A name is checked in one place and numbered in one place, in the shell's own scheme:
//! the unnumbered name is the first one, so the first collision is `(2)`. Whether a name
//! is taken is the caller's question to ask of the disk; it hands the answer over as the
//! names already in the folder.

use vstd::prelude::*;
use crate::paths::{
    file_name, file_name_spec, join, join_spec, parent, parent_spec, split_file_name, stem_of,
    ext_of, comps, components, seqs,
};
use crate::text::{
    char_is_control, chars_eq, chars_of, contains, eq_ignore_ascii_case, eq_ignore_case,
    is_control, push_char, push_dec, push_str, string_of, to_string, trim_spec, trim,
    trim_end_by, dec_digits, ends_with_ignore_ascii_case, has_suffix, ascii_lower_seq,
    lowercase, to_lowercase, lemma_lead_len_bound, lemma_trail_len_bound, trim_by, trim_start_by,
    lead_len, is_white_space,
};

verus! {

broadcast use vstd::seq_lib::group_seq_properties;

/// The name Windows itself gives a folder made by hand.
pub open spec fn new_folder_base() -> Seq<char> {
    "New folder"@
}

// ------------------------------------------------------------------------------------
// Checking a name
// ------------------------------------------------------------------------------------

pub open spec fn is_path_sep(c: char) -> bool {
    c == '/' || c == '\\'
}

/// The characters Windows refuses in a name, separators aside.
pub open spec fn is_reserved(c: char) -> bool {
    c == '<' || c == '>' || c == ':' || c == '"' || c == '|' || c == '?' || c == '*'
}

/// Why a typed name is refused, in the order the checks run; nothing when it is fine.
pub open spec fn name_refusal(name: Seq<char>) -> Option<Seq<char>> {
    let n = trim_spec(name);
    if n.len() == 0 {
        Some("name cannot be empty"@)
    } else if n == "."@ || n == ".."@ {
        Some("invalid name"@)
    } else if exists|i: int| 0 <= i < n.len() && is_path_sep(#[trigger] n[i]) {
        Some("name cannot contain a path separator"@)
    } else if exists|i: int| 0 <= i < n.len() && is_reserved(#[trigger] n[i]) {
        Some("name contains a character windows does not allow"@)
    } else if n.last() == '.' || n.last() == ' ' {
        Some("name cannot end with a dot or a space"@)
    } else {
        None
    }
}

fn any_char(v: &Vec<char>, sep: bool) -> (r: bool)
    ensures
        sep ==> r == (exists|i: int| 0 <= i < v@.len() && is_path_sep(#[trigger] v@[i])),
        !sep ==> r == (exists|i: int| 0 <= i < v@.len() && is_reserved(#[trigger] v@[i])),
{
    let mut i: usize = 0;
    while i < v.len()
        invariant
            i <= v.len(),
            sep ==> forall|j: int| 0 <= j < i ==> !is_path_sep(#[trigger] v@[j]),
            !sep ==> forall|j: int| 0 <= j < i ==> !is_reserved(#[trigger] v@[j]),
        decreases v.len() - i,
    {
        let c = v[i];
        let hit = if sep {
            c == '/' || c == '\\'
        } else {
            c == '<' || c == '>' || c == ':' || c == '"' || c == '|' || c == '?' || c == '*'
        };
        if hit {
            return true;
        }
        i += 1;
    }
    false
}

/// The name a person typed, checked the way Explorer checks it: the spaces around it are
/// not part of it, and what Windows will not accept in a name is refused with a reason.
pub fn checked_name(name: &str) -> (r: Result<String, String>)
    ensures
        r matches Ok(n) ==> name_refusal(name@) is None && n@ == trim_spec(name@),
        r matches Err(e) ==> name_refusal(name@) == Some(e@),
{
    let n = trim(name);
    if n.len() == 0 {
        return Err(to_string("name cannot be empty"));
    }
    if chars_eq(&n, &chars_of(".")) || chars_eq(&n, &chars_of("..")) {
        return Err(to_string("invalid name"));
    }
    if any_char(&n, true) {
        return Err(to_string("name cannot contain a path separator"));
    }
    if any_char(&n, false) {
        return Err(to_string("name contains a character windows does not allow"));
    }
    if n[n.len() - 1] == '.' || n[n.len() - 1] == ' ' {
        return Err(to_string("name cannot end with a dot or a space"));
    }
    Ok(string_of(&n))
}

// ------------------------------------------------------------------------------------
// Numbering
// ------------------------------------------------------------------------------------

/// Is `name` among the names already in the folder? Windows compares names without
/// case, accented letters included, so two names are one when their lower cases are.
pub open spec fn is_taken(taken: Seq<String>, name: Seq<char>) -> bool {
    exists|i: int| 0 <= i < taken.len() && lowercase(#[trigger] taken[i]@) == lowercase(name)
}

/// The `n`th name in the shell's sequence for `name`: `report (n).txt`, `notes (n)`, and
/// for a name that has no file name to number around, the whole name with ` (n)`.
pub open spec fn numbered(name: Seq<char>, n: nat) -> Seq<char> {
    let tag = " ("@ + dec_digits(n) + ")"@;
    match file_name_spec(name) {
        Some(f) => match ext_of(f) {
            Some(e) => stem_of(f) + tag + "."@ + e,
            None => stem_of(f) + tag,
        },
        None => name + tag,
    }
}

/// The first number from `n` below 1000 whose name is free.
pub open spec fn first_free(name: Seq<char>, taken: Seq<String>, n: nat) -> Option<nat>
    decreases 1000 - n,
{
    if n >= 1000 {
        None
    } else if !is_taken(taken, numbered(name, n)) {
        Some(n)
    } else {
        first_free(name, taken, n + 1)
    }
}

/// The next free version of `name` in `dir`: `name` itself when it is free, else the first
/// free numbered one from `(2)`; and `name` when all of them up to `(999)` are taken.
pub open spec fn free_name_spec(dir: Seq<char>, name: Seq<char>, taken: Seq<String>) -> Seq<char> {
    if !is_taken(taken, name) {
        join_spec(dir, name)
    } else {
        match first_free(name, taken, 2) {
            Some(n) => join_spec(dir, numbered(name, n)),
            None => join_spec(dir, name),
        }
    }
}

fn taken_has(taken: &[String], name: &str) -> (r: bool)
    ensures
        r == is_taken(taken@, name@),
{
    let want = chars_of(to_lowercase(name).as_str());
    let mut i: usize = 0;
    while i < taken.len()
        invariant
            i <= taken.len(),
            want@ == lowercase(name@),
            forall|j: int| 0 <= j < i ==> lowercase(#[trigger] taken@[j]@) != lowercase(name@),
        decreases taken.len() - i,
    {
        let have = chars_of(to_lowercase(taken[i].as_str()).as_str());
        if chars_eq(&have, &want) {
            return true;
        }
        i += 1;
    }
    false
}

/// The `n`th name in the shell's sequence for `name`.
pub fn numbered_name(name: &str, n: u64) -> (r: String)
    ensures
        r@ == numbered(name@, n as nat),
{
    let mut tag = to_string(" (");
    push_dec(&mut tag, n);
    push_str(&mut tag, ")");
    match file_name(name) {
        Some(f) => {
            let (stem, ext) = split_file_name(&f);
            let mut r = string_of(&stem);
            push_str(&mut r, tag.as_str());
            match ext {
                Some(e) => {
                    push_str(&mut r, ".");
                    push_str(&mut r, string_of(&e).as_str());
                },
                None => {},
            }
            r
        },
        None => {
            let mut r = to_string(name);
            push_str(&mut r, tag.as_str());
            r
        },
    }
}

/// The next free version of `name` in `dir` — the shell's scheme, so a name taken by
/// Explorer and a name taken by a floatie resolve the same way. `taken` holds the names
/// already in `dir`. Naming only: what is done with the path is the caller's.
pub fn free_name(dir: &str, name: &str, taken: &[String]) -> (r: String)
    ensures
        r@ == free_name_spec(dir@, name@, taken@),
{
    if !taken_has(taken, name) {
        return join(dir, name);
    }
    let mut n: u64 = 2;
    while n < 1000
        invariant
            2 <= n <= 1000,
            is_taken(taken@, name@),
            first_free(name@, taken@, 2) == first_free(name@, taken@, n as nat),
        decreases 1000 - n,
    {
        let candidate = numbered_name(name, n);
        if !taken_has(taken, candidate.as_str()) {
            return join(dir, candidate.as_str());
        }
        n += 1;
    }
    join(dir, name)
}

/// The next free `New folder (n)` in `dir`, without creating it.
pub fn new_folder_path(dir: &str, taken: &[String]) -> (r: String)
    ensures
        r@ == free_name_spec(dir@, new_folder_base(), taken@),
{
    free_name(dir, "New folder", taken)
}

/// Where a rename of `from` to `new_name` lands: the checked name beside the item. The
/// error is the name's refusal, or the item having no parent directory.
pub open spec fn rename_target_spec(from: Seq<char>, new_name: Seq<char>) -> Result<Seq<char>, Seq<char>> {
    match name_refusal(new_name) {
        Some(e) => Err(e),
        None => match parent_spec(from) {
            None => Err("item has no parent directory"@),
            Some(p) => Ok(join_spec(p, trim_spec(new_name))),
        },
    }
}

/// Where renaming `from` to `new_name` puts it, once the name has been checked.
pub fn rename_target(from: &str, new_name: &str) -> (r: Result<String, String>)
    ensures
        r matches Ok(d) ==> rename_target_spec(from@, new_name@) == Ok::<Seq<char>, Seq<char>>(d@),
        r matches Err(e) ==> rename_target_spec(from@, new_name@) == Err::<Seq<char>, Seq<char>>(e@),
{
    let name = match checked_name(new_name) {
        Ok(n) => n,
        Err(e) => return Err(e),
    };
    match parent(from) {
        None => Err(to_string("item has no parent directory")),
        Some(p) => Ok(join(p.as_str(), name.as_str())),
    }
}

/// Do two paths name the same place: the same components?
pub fn same_place(a: &str, b: &str) -> (r: bool)
    ensures
        r == (comps(a@) == comps(b@)),
{
    let ac = chars_of(a);
    let bc = chars_of(b);
    let x = components(&ac);
    let y = components(&bc);
    if x.len() != y.len() {
        return false;
    }
    let mut i: usize = 0;
    while i < x.len()
        invariant
            i <= x.len() == y.len(),
            seqs(x@) == comps(a@),
            seqs(y@) == comps(b@),
            forall|j: int| 0 <= j < i ==> x@[j]@ == y@[j]@,
        decreases x.len() - i,
    {
        if !chars_eq(&x[i], &y[i]) {
            assert(seqs(x@)[i as int] != seqs(y@)[i as int]);
            return false;
        }
        i += 1;
    }
    assert(seqs(x@) =~= seqs(y@));
    true
}

/// Do these two paths name the same item, differing only in the ASCII case of the last
/// part? Windows remembers one case at a time, so `Marina` to `MARINA` is a rename in
/// place, not a collision.
pub fn same_name_other_case(a: &str, b: &str) -> (r: bool)
    ensures
        r == (match (file_name_spec(a@), file_name_spec(b@)) {
            (Some(x), Some(y)) => eq_ignore_ascii_case(x, y),
            _ => false,
        }),
{
    match (file_name(a), file_name(b)) {
        (Some(x), Some(y)) => eq_ignore_case(&x, &y),
        _ => false,
    }
}

// ------------------------------------------------------------------------------------
// Shortcut names
// ------------------------------------------------------------------------------------

/// Characters a shortcut's label loses on the way to a file name.
pub open spec fn dropped_from_label(c: char) -> bool {
    is_control(c) || c == '<' || c == '>' || c == ':' || c == '"' || c == '/' || c == '\\' || c == '|'
        || c == '?' || c == '*'
}

pub open spec fn label_kept(name: Seq<char>) -> Seq<char> {
    name.filter(|c: char| !dropped_from_label(c))
}

/// The stem a label becomes: the kept characters, trimmed, without trailing dots,
/// trimmed again; `Shortcut` when nothing is left.
pub open spec fn shortcut_stem(name: Seq<char>) -> Seq<char> {
    let s = trim_spec(trim_end_by(trim_spec(label_kept(name)), |c: char| c == '.'));
    if s.len() == 0 { "Shortcut"@ } else { s }
}

/// A usable `.lnk` file name for the shortcut built from a label: characters Windows
/// refuses are dropped, not escaped, and a label already ending in `.lnk` is not
/// suffixed twice.
pub open spec fn shortcut_file_name_spec(name: Seq<char>) -> Seq<char> {
    let stem = shortcut_stem(name);
    if stem.len() >= 4 && eq_ignore_ascii_case(stem.skip(stem.len() - 4), ".lnk"@) {
        stem
    } else {
        stem + ".lnk"@
    }
}

fn kept_chars(name: &str) -> (r: Vec<char>)
    ensures
        r@ == label_kept(name@),
{
    let v = chars_of(name);
    let mut r: Vec<char> = Vec::new();
    let mut i: usize = 0;
    while i < v.len()
        invariant
            i <= v.len(),
            v@ == name@,
            r@ == label_kept(v@.take(i as int)),
        decreases v.len() - i,
    {
        let c = v[i];
        let ghost before = v@.take(i as int);
        let drop = char_is_control(c) || c == '<' || c == '>' || c == ':' || c == '"' || c == '/'
            || c == '\\' || c == '|' || c == '?' || c == '*';
        if !drop {
            r.push(c);
        }
        i += 1;
        assert(v@.take(i as int) =~= before.push(c));
        reveal_with_fuel(Seq::filter, 1);
        assert(before.push(c).drop_last() =~= before);
    }
    assert(v@.take(v.len() as int) =~= v@);
    r
}

/// The number of trailing dots of `v[..to]`.
fn trailing_dots(v: &[char], to: usize) -> (n: usize)
    requires
        to <= v.len(),
    ensures
        n as nat == crate::text::trail_len(v@.take(to as int), |c: char| c == '.'),
        n <= to,
    decreases to,
{
    if to > 0 && v[to - 1] == '.' {
        let n = trailing_dots(v, to - 1);
        assert(v@.take(to as int).drop_last() =~= v@.take(to - 1));
        n + 1
    } else {
        0
    }
}

/// A usable file name for the shortcut built from an item's label.
pub fn shortcut_file_name(name: &str) -> (r: String)
    ensures
        r@ == shortcut_file_name_spec(name@),
{
    let kept = string_of(&kept_chars(name));
    let first = trim(kept.as_str());
    let d = trailing_dots(&first, first.len());
    assert(first@.take(first.len() as int) =~= first@);
    let undotted = crate::text::string_of_range(&first, 0, first.len() - d);
    let second = trim(undotted.as_str());
    assert(undotted@ =~= trim_end_by(first@, |c: char| c == '.'));
    let stem: Vec<char> = if second.len() == 0 { chars_of("Shortcut") } else { second };
    assert(stem@ == shortcut_stem(name@));
    proof {
        reveal_strlit(".lnk");
    }
    if ends_with_ignore_ascii_case(&stem, &chars_of(".lnk")) {
        string_of(&stem)
    } else {
        let mut r = string_of(&stem);
        push_str(&mut r, ".lnk");
        r
    }
}

// ------------------------------------------------------------------------------------
// Laws
// ------------------------------------------------------------------------------------

pub open spec fn all_kept(s: Seq<char>) -> bool {
    forall|i: int| 0 <= i < s.len() ==> !dropped_from_label(#[trigger] s[i])
}

proof fn lemma_trim_keeps(s: Seq<char>, f: spec_fn(char) -> bool)
    requires
        all_kept(s),
    ensures
        all_kept(trim_end_by(s, f)),
        all_kept(trim_start_by(s, f)),
        all_kept(trim_by(s, f)),
{
    lemma_lead_len_bound(s, f);
    lemma_trail_len_bound(s, f);
    let a = trim_start_by(s, f);
    assert forall|i: int| 0 <= i < a.len() implies !dropped_from_label(#[trigger] a[i]) by {
        assert(a[i] == s[i + lead_len(s, f)]);
    }
    let b = trim_end_by(s, f);
    assert forall|i: int| 0 <= i < b.len() implies !dropped_from_label(#[trigger] b[i]) by {
        assert(b[i] == s[i]);
    }
    lemma_trail_len_bound(a, f);
    let c = trim_end_by(a, f);
    assert forall|i: int| 0 <= i < c.len() implies !dropped_from_label(#[trigger] c[i]) by {
        assert(c[i] == a[i]);
    }
}

/// A shortcut's file name is always usable: it ends in `.lnk` (in any case), holds no
/// control character and none of `< > : " / \ | ? *`, and a label that already ends in
/// `.lnk` is not given a second one.
pub proof fn a_shortcut_name_is_usable(name: Seq<char>)
    ensures
        ({
            let r = shortcut_file_name_spec(name);
            let stem = shortcut_stem(name);
            &&& r.len() >= 4 && eq_ignore_ascii_case(r.skip(r.len() - 4), ".lnk"@)
            &&& all_kept(r)
            &&& (stem.len() >= 4 && eq_ignore_ascii_case(stem.skip(stem.len() - 4), ".lnk"@) ==> r == stem)
        }),
{
    reveal(is_control);
    reveal_strlit(".lnk");
    reveal_strlit("Shortcut");
    let kept = label_kept(name);
    assert(all_kept(kept)) by {
        broadcast use vstd::seq_lib::group_filter_ensures;
    }
    let t1 = trim_spec(kept);
    lemma_trim_keeps(kept, |c: char| is_white_space(c));
    let t2 = trim_end_by(t1, |c: char| c == '.');
    lemma_trim_keeps(t1, |c: char| c == '.');
    lemma_trim_keeps(t2, |c: char| is_white_space(c));
    let stem = shortcut_stem(name);
    assert(all_kept(stem));
    let r = shortcut_file_name_spec(name);
    if !(stem.len() >= 4 && eq_ignore_ascii_case(stem.skip(stem.len() - 4), ".lnk"@)) {
        assert(r.skip(r.len() - 4) =~= ".lnk"@);
        assert forall|i: int| 0 <= i < r.len() implies !dropped_from_label(#[trigger] r[i]) by {
            if i < stem.len() {
                assert(r[i] == stem[i]);
            }
        }
    }
}

proof fn lemma_first_free(name: Seq<char>, taken: Seq<String>, k: nat)
    ensures
        first_free(name, taken, k) matches Some(n) ==> k <= n < 1000 && !is_taken(taken, numbered(name, n))
            && forall|m: nat| k <= m < n ==> is_taken(taken, #[trigger] numbered(name, m)),
        first_free(name, taken, k) is None ==> forall|m: nat| k <= m < 1000 ==> is_taken(taken, #[trigger] numbered(name, m)),
    decreases 1000 - k,
{
    if k < 1000 && is_taken(taken, numbered(name, k)) {
        lemma_first_free(name, taken, k + 1);
    }
}

/// A collision gets the first free number, the way the shell numbers names: the name
/// itself when it is free; else the first of `name (2)` to `name (999)` that is free,
/// every one before it being taken; and the name itself when all of them are taken.
pub proof fn a_collision_gets_the_first_free_number(dir: Seq<char>, name: Seq<char>, taken: Seq<String>)
    ensures
        !is_taken(taken, name) ==> free_name_spec(dir, name, taken) == join_spec(dir, name),
        is_taken(taken, name) ==> {
            ||| exists|n: nat| {
                &&& 2 <= n < 1000
                &&& !is_taken(taken, numbered(name, n))
                &&& (forall|m: nat| 2 <= m < n ==> is_taken(taken, #[trigger] numbered(name, m)))
                &&& #[trigger] free_name_spec(dir, name, taken) == join_spec(dir, numbered(name, n))
            }
            ||| (forall|m: nat| 2 <= m < 1000 ==> is_taken(taken, #[trigger] numbered(name, m)))
                && free_name_spec(dir, name, taken) == join_spec(dir, name)
        },
{
    lemma_first_free(name, taken, 2);
}

} // verus!
