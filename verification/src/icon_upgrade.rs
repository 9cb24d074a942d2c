//! Replacing the icons an older or a lesser resolve left behind.
//!
//! A launcher or a folder item whose icon is low-resolution is resolved again, at full
//! size; after a bump of the icon pipeline every stored icon is, once. Which icons are
//! low-resolution (that reads the icon files) and resolving the batch are the caller's:
//! what is decided here is what gets asked for, and what an answer changes.

use vstd::prelude::*;
use crate::folders::{field, field_spec, item_view, items_view, FolderItem, ItemView, WidgetRecord};
use crate::plugins::{desktop_facts, is_path_kind, strings, InstalledPlugin};
use crate::palette_run::record_with_id;
use crate::text::{chars_eq, chars_of, to_string, trim, trim_spec};

verus! {

broadcast use vstd::seq_lib::group_seq_properties;

/// Is an icon worth resolving again: when every icon is (`migrate`), or when this one is
/// low-resolution, and only for something with a target.
pub open spec fn wants_upgrade(migrate: bool, low_res: bool, target: Seq<char>) -> bool {
    (migrate || low_res) && trim_spec(target).len() > 0
}

fn wants_upgrade_exec(migrate: bool, low_res: bool, target: &str) -> (r: bool)
    ensures
        r == wants_upgrade(migrate, low_res, target@),
{
    (migrate || low_res) && trim(target).len() > 0
}

/// The launchers (records of a kind that points at one path) to resolve again, as
/// (record index, target), in the records' order. `low_res[i]` says whether record `i`'s
/// icon is low-resolution.
pub open spec fn launchers_spec(installed: Seq<InstalledPlugin>, records: Seq<WidgetRecord>, migrate: bool, low_res: Seq<bool>, n: int) -> Seq<(int, Seq<char>)>
    decreases n,
{
    if n <= 0 {
        seq![]
    } else {
        let prev = launchers_spec(installed, records, migrate, low_res, n - 1);
        let r = records[n - 1];
        let single = match desktop_facts(installed, r.kind@) {
            Some((_, group)) => !group,
            None => false,
        };
        match field_spec(r.text@, "target"@) {
            Some(t) => if single && wants_upgrade(migrate, low_res[n - 1], t) { prev.push((n - 1, t)) } else { prev },
            None => prev,
        }
    }
}

pub open spec fn picked_view(v: Seq<(usize, String)>) -> Seq<(int, Seq<char>)> {
    Seq::new(v.len(), |i: int| (v[i].0 as int, v[i].1@))
}

pub fn launchers_to_upgrade(installed: &[InstalledPlugin], records: &Vec<WidgetRecord>, migrate: bool, low_res: &Vec<bool>) -> (r: Vec<(usize, String)>)
    requires
        low_res@.len() == records@.len(),
    ensures
        picked_view(r@) == launchers_spec(installed@, records@, migrate, low_res@, records@.len() as int),
{
    let mut out: Vec<(usize, String)> = Vec::new();
    let mut i: usize = 0;
    while i < records.len()
        invariant
            i <= records@.len(),
            low_res@.len() == records@.len(),
            picked_view(out@) == launchers_spec(installed@, records@, migrate, low_res@, i as int),
        decreases records.len() - i,
    {
        let r = &records[i];
        if is_path_kind(installed, r.kind.as_str()) {
            match field(&r.text, "target") {
                Some(t) => {
                    if wants_upgrade_exec(migrate, low_res[i], t.as_str()) {
                        let ghost before = out@;
                        let ghost tv = t@;
                        out.push((i, t));
                        assert(picked_view(out@) =~= picked_view(before).push((i as int, tv)));
                    }
                },
                None => {},
            }
        }
        i += 1;
    }
    out
}

/// The targets among a folder's items to resolve again, in order. `low_res[k]` says
/// whether item `k`'s icon is low-resolution. Directories are included: the shell has a
/// large folder picture too.
pub open spec fn items_wanted(items: Seq<FolderItem>, migrate: bool, low_res: Seq<bool>, n: int) -> Seq<Seq<char>>
    decreases n,
{
    if n <= 0 {
        seq![]
    } else {
        let prev = items_wanted(items, migrate, low_res, n - 1);
        if wants_upgrade(migrate, low_res[n - 1], items[n - 1].target@) { prev.push(items[n - 1].target@) } else { prev }
    }
}

/// The folders with items to resolve again, as (record index, targets), in the records'
/// order; a folder with nothing to resolve is left out. `low_res[i][k]` is about item `k`
/// of record `i`.
pub open spec fn folders_spec(records: Seq<WidgetRecord>, migrate: bool, low_res: Seq<Vec<bool>>, n: int) -> Seq<(int, Seq<Seq<char>>)>
    decreases n,
{
    if n <= 0 {
        seq![]
    } else {
        let prev = folders_spec(records, migrate, low_res, n - 1);
        let r = records[n - 1];
        let needed = items_wanted(r.items@, migrate, low_res[n - 1]@, r.items@.len() as int);
        if r.kind@ == "folder"@ && needed.len() > 0 { prev.push((n - 1, needed)) } else { prev }
    }
}

pub open spec fn folders_view(v: Seq<(usize, Vec<String>)>) -> Seq<(int, Seq<Seq<char>>)> {
    Seq::new(v.len(), |i: int| (v[i].0 as int, strings(v[i].1@)))
}

fn wanted_in(items: &Vec<FolderItem>, migrate: bool, low_res: &Vec<bool>) -> (r: Vec<String>)
    requires
        low_res@.len() == items@.len(),
    ensures
        strings(r@) == items_wanted(items@, migrate, low_res@, items@.len() as int),
{
    let mut out: Vec<String> = Vec::new();
    let mut k: usize = 0;
    while k < items.len()
        invariant
            k <= items@.len(),
            low_res@.len() == items@.len(),
            strings(out@) == items_wanted(items@, migrate, low_res@, k as int),
        decreases items.len() - k,
    {
        if wants_upgrade_exec(migrate, low_res[k], items[k].target.as_str()) {
            let ghost before = out@;
            let t = items[k].target.clone();
            out.push(t);
            assert(strings(out@) =~= strings(before).push(items@[k as int].target@));
        }
        k += 1;
    }
    out
}

pub fn folders_to_upgrade(records: &Vec<WidgetRecord>, migrate: bool, low_res: &Vec<Vec<bool>>) -> (r: Vec<(usize, Vec<String>)>)
    requires
        low_res@.len() == records@.len(),
        forall|i: int| 0 <= i < records@.len() ==> (#[trigger] low_res@[i])@.len() == records@[i].items@.len(),
    ensures
        folders_view(r@) == folders_spec(records@, migrate, low_res@, records@.len() as int),
{
    let mut out: Vec<(usize, Vec<String>)> = Vec::new();
    let mut i: usize = 0;
    while i < records.len()
        invariant
            i <= records@.len(),
            low_res@.len() == records@.len(),
            forall|i: int| 0 <= i < records@.len() ==> (#[trigger] low_res@[i])@.len() == records@[i].items@.len(),
            folders_view(out@) == folders_spec(records@, migrate, low_res@, i as int),
        decreases records.len() - i,
    {
        let r = &records[i];
        if chars_eq(&chars_of(r.kind.as_str()), &chars_of("folder")) {
            let needed = wanted_in(&r.items, migrate, &low_res[i]);
            if needed.len() > 0 {
                let ghost before = out@;
                let ghost nv = strings(needed@);
                out.push((i, needed));
                assert(folders_view(out@) =~= folders_view(before).push((i as int, nv)));
            }
        }
        i += 1;
    }
    out
}

/// Every path the batch asks about: the launchers' targets, then the folders', each once.
pub open spec fn batch_spec(launchers: Seq<Seq<char>>, folders: Seq<Seq<Seq<char>>>) -> Set<Seq<char>> {
    launchers.to_set().union(Set::new(|p: Seq<char>| exists|i: int| 0 <= i < folders.len() && folders[i].contains(p)))
}

fn add_once(out: &mut Vec<String>, p: &String)
    ensures
        strings(final(out)@).to_set() == strings(old(out)@).to_set().insert(p@),
        strings(old(out)@).no_duplicates() ==> strings(final(out)@).no_duplicates(),
{
    let mut i: usize = 0;
    while i < out.len()
        invariant
            i <= out@.len(),
            forall|j: int| 0 <= j < i ==> strings(out@)[j] != p@,
        decreases out.len() - i,
    {
        if out[i] == *p {
            assert(strings(out@)[i as int] == p@);
            assert(strings(out@).to_set() =~= strings(out@).to_set().insert(p@));
            return;
        }
        i += 1;
    }
    let ghost before = strings(out@);
    out.push(p.clone());
    assert(strings(out@) =~= before.push(p@));
    assert(strings(out@).to_set() =~= before.to_set().insert(p@));
}

/// The paths to resolve, each once.
pub fn batch_paths(launchers: &Vec<(usize, String)>, folders: &Vec<(usize, Vec<String>)>) -> (r: Vec<String>)
    ensures
        strings(r@).no_duplicates(),
        strings(r@).to_set() == batch_spec(
            Seq::new(launchers@.len(), |i: int| launchers@[i].1@),
            Seq::new(folders@.len(), |i: int| strings(folders@[i].1@)),
        ),
{
    let ghost ls = Seq::new(launchers@.len(), |i: int| launchers@[i].1@);
    let ghost fs = Seq::new(folders@.len(), |i: int| strings(folders@[i].1@));
    let mut out: Vec<String> = Vec::new();
    assert(strings(out@).to_set() =~= Set::<Seq<char>>::empty());
    let mut i: usize = 0;
    while i < launchers.len()
        invariant
            i <= launchers@.len(),
            ls == Seq::new(launchers@.len(), |i: int| launchers@[i].1@),
            strings(out@).no_duplicates(),
            strings(out@).to_set() == ls.take(i as int).to_set(),
        decreases launchers.len() - i,
    {
        add_once(&mut out, &launchers[i].1);
        assert(ls.take(i + 1) =~= ls.take(i as int).push(ls[i as int]));
        proof {
            ls.take(i as int).lemma_push_to_set_commute(ls[i as int]);
        }
        i += 1;
    }
    assert(ls.take(launchers@.len() as int) =~= ls);
    let ghost base = ls.to_set();
    let mut f: usize = 0;
    while f < folders.len()
        invariant
            f <= folders@.len(),
            fs == Seq::new(folders@.len(), |i: int| strings(folders@[i].1@)),
            base == ls.to_set(),
            strings(out@).no_duplicates(),
            strings(out@).to_set() == base.union(Set::new(|p: Seq<char>| exists|i: int| 0 <= i < f && fs[i].contains(p))),
        decreases folders.len() - f,
    {
        let needed = &folders[f].1;
        let ghost at_start = strings(out@).to_set();
        let mut k: usize = 0;
        while k < needed.len()
            invariant
                k <= needed@.len(),
                f < folders@.len(),
                needed == &folders@[f as int].1,
                fs == Seq::new(folders@.len(), |i: int| strings(folders@[i].1@)),
                strings(out@).no_duplicates(),
                strings(out@).to_set() == at_start.union(strings(needed@).take(k as int).to_set()),
            decreases needed.len() - k,
        {
            add_once(&mut out, &needed[k]);
            assert(strings(needed@).take(k + 1) =~= strings(needed@).take(k as int).push(strings(needed@)[k as int]));
            proof {
                strings(needed@).take(k as int).lemma_push_to_set_commute(strings(needed@)[k as int]);
            }
            assert(strings(out@).to_set() =~= at_start.union(strings(needed@).take(k + 1).to_set()));
            k += 1;
        }
        assert(strings(needed@).take(needed@.len() as int) =~= strings(needed@));
        assert(fs[f as int] == strings(needed@));
        assert forall|p: Seq<char>| strings(needed@).to_set().contains(p) <==> fs[f as int].contains(p) by {}
        assert(strings(out@).to_set() =~= base.union(Set::new(|p: Seq<char>| exists|i: int| 0 <= i < f + 1 && fs[i].contains(p)))) by {
            assert forall|p: Seq<char>| strings(out@).to_set().contains(p) implies base.union(Set::new(|p: Seq<char>| exists|i: int| 0 <= i < f + 1 && fs[i].contains(p))).contains(p) by {
                if !base.contains(p) && !strings(needed@).to_set().contains(p) {
                    let i = choose|i: int| 0 <= i < f && fs[i].contains(p);
                    assert(0 <= i < f + 1 && fs[i].contains(p));
                } else if !base.contains(p) {
                    assert(fs[f as int].contains(p));
                }
            }
            assert forall|p: Seq<char>| base.union(Set::new(|p: Seq<char>| exists|i: int| 0 <= i < f + 1 && fs[i].contains(p))).contains(p) implies strings(out@).to_set().contains(p) by {
                if !base.contains(p) {
                    let i = choose|i: int| 0 <= i < f + 1 && fs[i].contains(p);
                    if i < f {
                        assert(exists|i: int| 0 <= i < f && fs[i].contains(p));
                    } else {
                        assert(strings(needed@).to_set().contains(p));
                    }
                }
            }
        }
        f += 1;
    }
    assert(batch_spec(ls, fs) =~= base.union(Set::new(|p: Seq<char>| exists|i: int| 0 <= i < folders@.len() && fs[i].contains(p))));
    out
}

// ------------------------------------------------------------------------------------
// What an answer changes
// ------------------------------------------------------------------------------------

/// A record's data with the text entry `key` set to `value`: in place when it has one,
/// added otherwise.
pub open spec fn set_field_spec(text: Seq<(String, String)>, key: Seq<char>, value: Seq<char>) -> Seq<(Seq<char>, Seq<char>)> {
    let pairs = Seq::new(text.len(), |i: int| (text[i].0@, text[i].1@));
    if exists|i: int| 0 <= i < text.len() && #[trigger] text[i].0@ == key {
        let at = choose|i: int| 0 <= i < text.len() && #[trigger] text[i].0@ == key
            && forall|j: int| 0 <= j < i ==> text[j].0@ != key;
        pairs.update(at, (key, value))
    } else {
        pairs.push((key, value))
    }
}

pub open spec fn pairs_of(text: Seq<(String, String)>) -> Seq<(Seq<char>, Seq<char>)> {
    Seq::new(text.len(), |i: int| (text[i].0@, text[i].1@))
}

/// A launcher's icon after the batch answered `resolved` for its target: replaced, unless
/// there was no answer, the answer was that there is no icon, or it is the icon it has.
pub open spec fn upgraded_icon(current: Option<Seq<char>>, resolved: Option<Seq<char>>) -> Option<Seq<char>> {
    match resolved {
        Some(h) => if h != "none"@ && (match current { Some(c) => c, None => ""@ }) != h { Some(h) } else { None },
        None => None,
    }
}

/// Give a launcher the icon resolved for it. Says whether anything changed.
pub fn upgrade_launcher(text: &mut Vec<(String, String)>, resolved: Option<&str>) -> (changed: bool)
    ensures
        ({
            let current = field_spec(old(text)@, "icon"@);
            let resolved_v = match resolved { Some(s) => Some(s@), None => None };
            match upgraded_icon(current, resolved_v) {
                Some(h) => changed && pairs_of(final(text)@) == set_field_spec(old(text)@, "icon"@, h),
                None => !changed && final(text)@ == old(text)@,
            }
        }),
{
    proof {
        reveal_strlit("");
    }
    let h = match resolved {
        Some(h) => h,
        None => return false,
    };
    if chars_eq(&chars_of(h), &chars_of("none")) {
        return false;
    }
    let current = match field(text, "icon") {
        Some(c) => c,
        None => to_string(""),
    };
    if chars_eq(&chars_of(current.as_str()), &chars_of(h)) {
        return false;
    }
    let ghost t0 = text@;
    let ghost rv = match resolved { Some(s) => Some(s@), None => None };
    assert(upgraded_icon(field_spec(t0, "icon"@), rv) == Some(h@));
    let key = to_string("icon");
    let mut i: usize = 0;
    while i < text.len()
        invariant
            i <= text@.len(),
            text@ == t0,
            t0 == old(text)@,
            rv == (match resolved { Some(s) => Some(s@), None => None::<Seq<char>> }),
            upgraded_icon(field_spec(t0, "icon"@), rv) == Some(h@),
            key@ == "icon"@,
            forall|j: int| 0 <= j < i ==> t0[j].0@ != "icon"@,
        decreases text.len() - i,
    {
        if text[i].0 == key {
            proof {
                let w = choose|w: int| 0 <= w < t0.len() && #[trigger] t0[w].0@ == "icon"@
                    && forall|j: int| 0 <= j < w ==> t0[j].0@ != "icon"@;
                assert(t0[i as int].0@ == "icon"@);
                assert(w == i) by {
                    if w > i {
                        assert(t0[i as int].0@ != "icon"@);
                    }
                }
            }
            text.set(i, (key, to_string(h)));
            assert(pairs_of(text@) =~= set_field_spec(t0, "icon"@, h@));
            return true;
        }
        i += 1;
    }
    text.push((key, to_string(h)));
    assert(pairs_of(text@) =~= set_field_spec(t0, "icon"@, h@));
    true
}

/// A folder's items after the batch answered `resolved` for `target`: every item with
/// that target takes the icon, unless there was no answer or it was that there is none.
pub open spec fn upgraded_items(items: Seq<ItemView>, target: Seq<char>, resolved: Option<Seq<char>>) -> Seq<ItemView> {
    match resolved {
        Some(h) => if h != "none"@ {
            Seq::new(items.len(), |k: int| if items[k].1 == target { (items[k].0, items[k].1, h, items[k].3) } else { items[k] })
        } else {
            items
        },
        None => items,
    }
}

/// Give a folder's items with this target the icon resolved for it. Says whether any
/// icon changed.
pub fn upgrade_items(items: &mut Vec<FolderItem>, target: &str, resolved: Option<&str>) -> (changed: bool)
    ensures
        items_view(final(items)@) == upgraded_items(items_view(old(items)@), target@, match resolved { Some(s) => Some(s@), None => None }),
        changed == (items_view(final(items)@) != items_view(old(items)@)),
{
    let h = match resolved {
        Some(h) => h,
        None => return false,
    };
    if chars_eq(&chars_of(h), &chars_of("none")) {
        return false;
    }
    let ghost want = upgraded_items(items_view(items@), target@, Some(h@));
    let ghost start = items_view(items@);
    let t = chars_of(target);
    let hv = chars_of(h);
    let mut out: Vec<FolderItem> = Vec::new();
    let mut changed = false;
    let mut k: usize = 0;
    while k < items.len()
        invariant
            k <= items@.len(),
            t@ == target@,
            hv@ == h@,
            h@ != "none"@,
            start == items_view(items@),
            want == upgraded_items(start, target@, Some(h@)),
            items_view(out@) =~= want.take(k as int),
            want.len() == start.len(),
            changed == exists|j: int| 0 <= j < k && #[trigger] want[j] != start[j],
        decreases items.len() - k,
    {
        let it = &items[k];
        let same_target = chars_eq(&chars_of(it.target.as_str()), &t);
        let differs = same_target && !chars_eq(&chars_of(it.icon.as_str()), &hv);
        let c = FolderItem {
            name: it.name.clone(),
            target: it.target.clone(),
            icon: if same_target { to_string(h) } else { it.icon.clone() },
            is_dir: it.is_dir,
        };
        let ghost before = out@;
        out.push(c);
        proof {
            assert(items_view(out@) =~= items_view(before).push(item_view(c)));
            assert(want.take(k + 1) =~= want.take(k as int).push(want[k as int]));
            if differs {
                assert(want[k as int] != start[k as int]);
            } else {
                assert(want[k as int] == start[k as int]);
            }
        }
        changed = changed || differs;
        k += 1;
    }
    assert(want.take(items@.len() as int) =~= want);
    if !changed {
        assert(want =~= start);
    }
    *items = out;
    changed
}

// ------------------------------------------------------------------------------------
// A widget asking for its own icon, and a folder for its items'
// ------------------------------------------------------------------------------------

/// The targets among a folder's items whose icon is missing (`missing[k]` says so of item
/// `k`), in order: those are what opening a folder resolves.
pub fn missing_targets(items: &Vec<FolderItem>, missing: &Vec<bool>) -> (r: Vec<String>)
    requires
        missing@.len() == items@.len(),
    ensures
        strings(r@) == items_wanted(items@, false, missing@, items@.len() as int),
{
    wanted_in(items, false, missing)
}

/// The target a launcher's icon is resolved from: refused when there is no launcher with
/// that id (or it has no target entry), or when the target is blank.
pub open spec fn launcher_target_spec(installed: Seq<InstalledPlugin>, records: Seq<WidgetRecord>, id: Seq<char>) -> Result<Seq<char>, Seq<char>> {
    let found = match record_with_id(records, id) {
        Some(i) => {
            let single = match desktop_facts(installed, records[i].kind@) {
                Some((_, group)) => !group,
                None => false,
            };
            if single { field_spec(records[i].text@, "target"@) } else { None }
        },
        None => None,
    };
    match found {
        Some(t) => if trim_spec(t).len() == 0 { Err("launcher has no target"@) } else { Ok(t) },
        None => Err("launcher not found"@),
    }
}

fn index_of_id(records: &Vec<WidgetRecord>, id: &str) -> (r: Option<usize>)
    ensures
        r matches Some(i) ==> i < records@.len() && record_with_id(records@, id@) == Some(i as int),
        r is None <==> record_with_id(records@, id@) is None,
{
    let want = to_string(id);
    let mut i: usize = 0;
    while i < records.len()
        invariant
            i <= records@.len(),
            want@ == id@,
            forall|j: int| 0 <= j < i ==> records@[j].id@ != id@,
        decreases records.len() - i,
    {
        if records[i].id == want {
            proof {
                let w = choose|w: int| 0 <= w < records@.len() && (#[trigger] records@[w]).id@ == id@
                    && forall|j: int| 0 <= j < w ==> records@[j].id@ != id@;
                assert(records@[i as int].id@ == id@);
                assert(w == i) by {
                    if w > i {
                        assert(records@[i as int].id@ != id@);
                    }
                }
            }
            return Some(i);
        }
        i += 1;
    }
    None
}

pub fn launcher_target(installed: &[InstalledPlugin], records: &Vec<WidgetRecord>, id: &str) -> (r: Result<String, String>)
    ensures
        match r {
            Ok(t) => launcher_target_spec(installed@, records@, id@) == Ok::<Seq<char>, Seq<char>>(t@),
            Err(e) => launcher_target_spec(installed@, records@, id@) == Err::<Seq<char>, Seq<char>>(e@),
        },
{
    let found = match index_of_id(records, id) {
        Some(i) => {
            if is_path_kind(installed, records[i].kind.as_str()) {
                field(&records[i].text, "target")
            } else {
                None
            }
        },
        None => None,
    };
    match found {
        Some(t) => {
            if trim(t.as_str()).len() == 0 {
                Err(to_string("launcher has no target"))
            } else {
                Ok(t)
            }
        },
        None => Err(to_string("launcher not found")),
    }
}

/// A re-resolution never trades a good icon for a worse one: the stored icon stays when
/// it is there, not `none`, not low-resolution, and the new one is low-resolution.
pub open spec fn keeps_existing_spec(existing: Seq<char>, existing_low_res: bool, new_low_res: bool) -> bool {
    existing.len() > 0 && existing != "none"@ && !existing_low_res && new_low_res
}

pub fn keeps_existing(existing: &str, existing_low_res: bool, new_low_res: bool) -> (r: bool)
    ensures
        r == keeps_existing_spec(existing@, existing_low_res, new_low_res),
{
    let v = chars_of(existing);
    v.len() > 0 && !chars_eq(&v, &chars_of("none")) && !existing_low_res && new_low_res
}

} // verus!
