//! Edits to one floatie's record: taking an item out of a folder, renaming, and making
//! a new record.
//!
//! Moving files and writing the store are the caller's; these say what the record
//! becomes, and when an edit is refused, why.

use vstd::prelude::*;
use crate::folders::{field, field_spec, item_view, items_view, pairs_of, set_field, set_pair, FolderItem, ItemView, WidgetRecord};
use crate::icons::{is_low_res, is_low_res_spec, is_missing, is_missing_spec, pixel_size_spec};
use crate::naming::same_place;
use crate::paths::{comps, extension, extension_spec, file_name, file_name_spec, parent, parent_spec};
use crate::plugins::{desktop_facts, path_key, InstalledPlugin};
use crate::text::{chars_eq, chars_of, concat, lowercase, opt_chars, string_of, to_lowercase, to_string, trim, trim_spec};

verus! {

broadcast use vstd::seq_lib::group_seq_properties;

// ------------------------------------------------------------------------------------
// Taking an item out of a folder
// ------------------------------------------------------------------------------------

/// Why taking item `index` out of record `r` is refused, if it is.
pub open spec fn take_refusal(r: WidgetRecord, index: usize) -> Option<Seq<char>> {
    if r.kind@ != "folder"@ {
        Some("not a folder"@)
    } else if index >= r.items@.len() {
        Some("bad index"@)
    } else if trim_spec(r.items@[index as int].target@).len() == 0 {
        Some("empty target"@)
    } else {
        None
    }
}

/// Take item `index` out of the folder `r`: the item, and the folder's directory when it
/// has one. Refused, with the record left as it was, for a record that is not a folder,
/// an index past its items, or an item without a target.
pub fn take_item(r: &mut WidgetRecord, index: usize) -> (out: Result<(FolderItem, Option<String>), String>)
    ensures
        match take_refusal(*old(r), index) {
            Some(why) => out matches Err(e) && e@ == why && *final(r) == *old(r),
            None => out matches Ok((it, dir)) && {
                &&& item_view(it) == item_view(old(r).items@[index as int])
                &&& opt_chars_string(dir) == field_spec(old(r).text@, "path"@)
                &&& items_view(final(r).items@) == items_view(old(r).items@).remove(index as int)
                &&& final(r).id == old(r).id && final(r).kind == old(r).kind && final(r).x == old(r).x
                &&& final(r).y == old(r).y && final(r).text == old(r).text
            },
        },
{
    if !chars_eq(&chars_of(r.kind.as_str()), &chars_of("folder")) {
        return Err(to_string("not a folder"));
    }
    if index >= r.items.len() {
        return Err(to_string("bad index"));
    }
    if trim(r.items[index].target.as_str()).len() == 0 {
        return Err(to_string("empty target"));
    }
    let dir = field(&r.text, "path");
    let ghost before = r.items@;
    let it = r.items.remove(index);
    assert(items_view(r.items@) =~= items_view(before).remove(index as int));
    Ok((it, dir))
}

pub open spec fn opt_chars_string(o: Option<String>) -> Option<Seq<char>> {
    match o {
        Some(s) => Some(s@),
        None => None,
    }
}

/// Does an item taken out of a folder move on disk: only when where it goes is not the
/// directory it is already in.
pub open spec fn moves_out_spec(dest_dir: Seq<char>, src: Seq<char>) -> bool {
    let here = match parent_spec(src) {
        Some(p) => p,
        None => src,
    };
    comps(dest_dir) != comps(here)
}

pub fn moves_out(dest_dir: &str, src: &str) -> (r: bool)
    ensures
        r == moves_out_spec(dest_dir@, src@),
{
    let here = match parent(src) {
        Some(p) => p,
        None => to_string(src),
    };
    !same_place(dest_dir, here.as_str())
}

// ------------------------------------------------------------------------------------
// Renaming
// ------------------------------------------------------------------------------------

/// The path a floatie stands for, where its kind keeps it: refused for a kind or a record
/// that has none.
pub open spec fn widget_path_spec(installed: Seq<InstalledPlugin>, r: WidgetRecord) -> Result<Seq<char>, Seq<char>> {
    let p = match desktop_facts(installed, r.kind@) {
        Some((key, _)) => match field_spec(r.text@, key) {
            Some(v) => v,
            None => ""@,
        },
        None => ""@,
    };
    if trim_spec(p).len() == 0 {
        Err("this "@ + r.kind@ + " has no path"@)
    } else {
        Ok(p)
    }
}

pub fn widget_path(installed: &[InstalledPlugin], r: &WidgetRecord) -> (out: Result<String, String>)
    ensures
        match out {
            Ok(p) => widget_path_spec(installed@, *r) == Ok::<Seq<char>, Seq<char>>(p@),
            Err(e) => widget_path_spec(installed@, *r) == Err::<Seq<char>, Seq<char>>(e@),
        },
{
    proof {
        reveal_strlit("");
    }
    let p = match path_key(installed, r.kind.as_str()) {
        Some(k) => match field(&r.text, k.as_str()) {
            Some(v) => v,
            None => to_string(""),
        },
        None => to_string(""),
    };
    if trim(p.as_str()).len() == 0 {
        let mut e = concat("this ", r.kind.as_str());
        crate::text::push_str(&mut e, " has no path");
        Err(e)
    } else {
        Ok(p)
    }
}

/// A renamed floatie's entries: its name is the new file name (what it was asked to be
/// called, when the path has none), its target the new path, and a folder's path too.
pub open spec fn renamed_entries(text: Seq<(String, String)>, is_folder: bool, new_path: Seq<char>, asked: Seq<char>) -> Seq<(Seq<char>, Seq<char>)> {
    let name = match file_name_spec(new_path) {
        Some(n) => n,
        None => asked,
    };
    let t = set_pair(set_pair(pairs_of(text), "name"@, name), "target"@, new_path);
    if is_folder { set_pair(t, "path"@, new_path) } else { t }
}

pub fn rename_entries(r: &mut WidgetRecord, new_path: &str, asked: &str)
    ensures
        pairs_of(final(r).text@) == renamed_entries(old(r).text@, old(r).kind@ == "folder"@, new_path@, asked@),
        final(r).id == old(r).id && final(r).kind == old(r).kind && final(r).x == old(r).x,
        final(r).y == old(r).y && final(r).items == old(r).items,
{
    let name = match file_name(new_path) {
        Some(n) => string_of(&n),
        None => to_string(asked),
    };
    set_field(&mut r.text, "name", name.as_str());
    set_field(&mut r.text, "target", new_path);
    if chars_eq(&chars_of(r.kind.as_str()), &chars_of("folder")) {
        set_field(&mut r.text, "path", new_path);
    }
}

/// A rename that changes the extension (compared lower-cased) can change the icon.
pub open spec fn extension_changed_spec(old_path: Seq<char>, new_path: Seq<char>) -> bool {
    let a = match extension_spec(old_path) {
        Some(e) => Some(lowercase(e)),
        None => None,
    };
    let b = match extension_spec(new_path) {
        Some(e) => Some(lowercase(e)),
        None => None,
    };
    a != b
}

pub fn extension_changed(old_path: &str, new_path: &str) -> (r: bool)
    ensures
        r == extension_changed_spec(old_path@, new_path@),
{
    let a = match extension(old_path) {
        Some(e) => Some(chars_of(to_lowercase(string_of(&e).as_str()).as_str())),
        None => None,
    };
    let b = match extension(new_path) {
        Some(e) => Some(chars_of(to_lowercase(string_of(&e).as_str()).as_str())),
        None => None,
    };
    match (a, b) {
        (Some(x), Some(y)) => !chars_eq(&x, &y),
        (None, None) => false,
        _ => true,
    }
}

// ------------------------------------------------------------------------------------
// A new record
// ------------------------------------------------------------------------------------

/// The remainder of `p / d` as Rust's `%` gives it: with the sign of `p`.
pub open spec fn rem_toward_zero(p: int, d: int) -> int {
    if p >= 0 { p % d } else { -((-p) % d) }
}

/// Where the `n`th floatie goes when it is not put anywhere in particular: spread over a
/// 480 by 320 patch from (140, 140), with `n` taken as an `i32` (so a count past `i32`
/// wraps). The spread multiplies in `i32`, which holds for `n` up to 45,691,141 either
/// way from zero.
pub fn default_spot(n: u64) -> (r: (i32, i32))
    requires
        -45_691_141 <= n as i32 <= 45_691_141,
    ensures
        r.0 == 140 + rem_toward_zero((n as i32) * 47, 480),
        r.1 == 140 + rem_toward_zero((n as i32) * 31, 320),
{
    let m: i64 = (#[verifier::truncate] (n as i32)) as i64;
    let p = m * 47;
    let q = m * 31;
    let a: i64 = if p >= 0 { p % 480 } else { -((-p) % 480) };
    let b: i64 = if q >= 0 { q % 320 } else { -((-q) % 320) };
    ((140 + a) as i32, (140 + b) as i32)
}

// ------------------------------------------------------------------------------------
// Saving
// ------------------------------------------------------------------------------------

/// What the save's rule needs to know of an icon: whether nothing usable is stored, and
/// whether it is low-resolution. `file` is what the icon's stored file holds, when it
/// names one that could be read.
#[derive(Clone, Copy, Debug)]
pub struct IconFacts {
    pub missing: bool,
    pub low_res: bool,
}

pub fn icon_facts(icon: &str, file: Option<&Vec<u8>>) -> (r: IconFacts)
    ensures
        r.missing == is_missing_spec(icon@, match file { Some(v) => Some(v@), None => None }),
        r.low_res == is_low_res_spec(pixel_size_spec(icon@, match file { Some(v) => Some(v@), None => None })),
{
    IconFacts { missing: is_missing(icon, file), low_res: is_low_res(icon, file) }
}

/// A save keeps the stored icon over the incoming one when taking the incoming one would
/// lose an icon, or trade a crisp one for a blurry one.
pub open spec fn keeps_stored(incoming: IconFacts, stored: IconFacts) -> bool {
    (incoming.missing && !stored.missing) || (incoming.low_res && !stored.low_res)
}

/// The incoming record's icon entry, under the save's rule: the stored icon (when the
/// record has one stored) stays where the rule says so.
pub fn protect_icon(text: &mut Vec<(String, String)>, stored: Option<&str>, incoming: IconFacts, stored_facts: IconFacts)
    ensures
        match stored {
            Some(s) => if keeps_stored(incoming, stored_facts) {
                pairs_of(final(text)@) == set_pair(pairs_of(old(text)@), "icon"@, s@)
            } else {
                final(text)@ == old(text)@
            },
            None => final(text)@ == old(text)@,
        },
{
    match stored {
        Some(s) => {
            if (incoming.missing && !stored_facts.missing) || (incoming.low_res && !stored_facts.low_res) {
                set_field(text, "icon", s);
            }
        },
        None => {},
    }
}

/// The first stored item with this target.
pub open spec fn first_with_target(items: Seq<FolderItem>, target: Seq<char>) -> Option<int> {
    if exists|j: int| 0 <= j < items.len() && (#[trigger] items[j]).target@ == target {
        Some(choose|j: int| 0 <= j < items.len() && (#[trigger] items[j]).target@ == target
            && forall|k: int| 0 <= k < j ==> items[k].target@ != target)
    } else {
        None
    }
}

fn find_target(items: &Vec<FolderItem>, target: &String) -> (r: Option<usize>)
    ensures
        r matches Some(j) ==> j < items@.len() && first_with_target(items@, target@) == Some(j as int),
        r is None <==> first_with_target(items@, target@) is None,
{
    let mut j: usize = 0;
    while j < items.len()
        invariant
            j <= items@.len(),
            forall|k: int| 0 <= k < j ==> items@[k].target@ != target@,
        decreases items.len() - j,
    {
        if items[j].target == *target {
            proof {
                let w = choose|w: int| 0 <= w < items@.len() && (#[trigger] items@[w]).target@ == target@
                    && forall|k: int| 0 <= k < w ==> items@[k].target@ != target@;
                assert(items@[j as int].target@ == target@);
                assert(w == j) by {
                    if w > j {
                        assert(items@[j as int].target@ != target@);
                    }
                }
            }
            return Some(j);
        }
        j += 1;
    }
    None
}

/// An incoming folder item under the save's rule: it takes the icon of the first stored
/// item with its target, where the rule says so.
pub open spec fn protected_item(it: ItemView, facts: IconFacts, stored: Seq<FolderItem>, stored_facts: Seq<IconFacts>) -> ItemView {
    match first_with_target(stored, it.1) {
        Some(j) => if keeps_stored(facts, stored_facts[j]) { (it.0, it.1, stored[j].icon@, it.3) } else { it },
        None => it,
    }
}

/// The incoming folder items under the save's rule. `facts[k]` is about incoming item
/// `k`, `stored_facts[j]` about stored item `j`.
pub fn protect_items(incoming: &mut Vec<FolderItem>, facts: &Vec<IconFacts>, stored: &Vec<FolderItem>, stored_facts: &Vec<IconFacts>)
    requires
        facts@.len() == old(incoming)@.len(),
        stored_facts@.len() == stored@.len(),
    ensures
        items_view(final(incoming)@) == Seq::new(old(incoming)@.len(), |k: int|
            protected_item(item_view(old(incoming)@[k]), facts@[k], stored@, stored_facts@)),
{
    let ghost want = Seq::new(incoming@.len(), |k: int| protected_item(item_view(incoming@[k]), facts@[k], stored@, stored_facts@));
    let mut out: Vec<FolderItem> = Vec::new();
    let mut k: usize = 0;
    while k < incoming.len()
        invariant
            k <= incoming@.len(),
            facts@.len() == incoming@.len(),
            stored_facts@.len() == stored@.len(),
            want == Seq::new(incoming@.len(), |k: int| protected_item(item_view(incoming@[k]), facts@[k], stored@, stored_facts@)),
            items_view(out@) =~= want.take(k as int),
        decreases incoming.len() - k,
    {
        let it = &incoming[k];
        let f = facts[k];
        let icon = match find_target(stored, &it.target) {
            Some(j) => {
                let g = stored_facts[j];
                if (f.missing && !g.missing) || (f.low_res && !g.low_res) {
                    stored[j].icon.clone()
                } else {
                    it.icon.clone()
                }
            },
            None => it.icon.clone(),
        };
        let c = FolderItem { name: it.name.clone(), target: it.target.clone(), icon, is_dir: it.is_dir };
        let ghost before = out@;
        out.push(c);
        assert(items_view(out@) =~= items_view(before).push(item_view(c)));
        assert(want.take(k + 1) =~= want.take(k as int).push(want[k as int]));
        k += 1;
    }
    assert(want.take(incoming@.len() as int) =~= want);
    *incoming = out;
}

} // verus!
