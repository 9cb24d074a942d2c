//! Folder floaties: the items a folder shows, and the records that become items.
//!
//! A record's data is JSON the caller owns; what these rules read of it are its text
//! entries, handed over as (key, text) pairs.

use vstd::prelude::*;
use crate::plugins::{desktop_facts, is_path_kind, path_key, InstalledPlugin};
use crate::text::{chars_eq, chars_of, string_of, to_string, trim, trim_spec};

verus! {

broadcast use vstd::seq_lib::group_seq_properties;

/// One item inside a folder floatie.
#[derive(Clone, Debug)]
pub struct FolderItem {
    pub name: String,
    pub target: String,
    pub icon: String,
    pub is_dir: bool,
}

pub type ItemView = (Seq<char>, Seq<char>, Seq<char>, bool);

pub open spec fn item_view(i: FolderItem) -> ItemView {
    (i.name@, i.target@, i.icon@, i.is_dir)
}

pub open spec fn items_view(v: Seq<FolderItem>) -> Seq<ItemView> {
    Seq::new(v.len(), |i: int| item_view(v[i]))
}

/// A floatie on the desktop, with the text entries of its data.
pub struct WidgetRecord {
    pub id: String,
    pub kind: String,
    pub x: i32,
    pub y: i32,
    /// The record data's entries that hold text, as (key, text).
    pub text: Vec<(String, String)>,
    /// A folder's items, as its data lists them; none for other kinds.
    pub items: Vec<FolderItem>,
}

/// The text entry `key` of a record's data.
pub open spec fn field_spec(text: Seq<(String, String)>, key: Seq<char>) -> Option<Seq<char>> {
    if exists|i: int| 0 <= i < text.len() && #[trigger] text[i].0@ == key {
        Some(text[choose|i: int| 0 <= i < text.len() && #[trigger] text[i].0@ == key
            && forall|j: int| 0 <= j < i ==> text[j].0@ != key].1@)
    } else {
        None
    }
}

/// The text entry `key` of a record's data, if it has one.
pub fn field(text: &Vec<(String, String)>, key: &str) -> (r: Option<String>)
    ensures
        r matches Some(s) ==> field_spec(text@, key@) == Some(s@),
        r is None <==> field_spec(text@, key@) is None,
{
    let k = to_string(key);
    let mut i: usize = 0;
    while i < text.len()
        invariant
            i <= text.len(),
            k@ == key@,
            forall|j: int| 0 <= j < i ==> text@[j].0@ != key@,
        decreases text.len() - i,
    {
        if text[i].0 == k {
            proof {
                let w = choose|w: int| 0 <= w < text@.len() && #[trigger] text@[w].0@ == key@
                    && forall|j: int| 0 <= j < w ==> text@[j].0@ != key@;
                assert(text@[i as int].0@ == key@);
                assert(w == i) by {
                    if w > i {
                        assert(text@[i as int].0@ != key@);
                    }
                }
            }
            return Some(text[i].1.clone());
        }
        i += 1;
    }
    None
}

/// The text entries as pairs of texts.
pub open spec fn pairs_of(text: Seq<(String, String)>) -> Seq<(Seq<char>, Seq<char>)> {
    Seq::new(text.len(), |i: int| (text[i].0@, text[i].1@))
}

/// Entries with `key` set to `value`: in place of the first entry under that key, or
/// added after the others.
pub open spec fn set_pair(pairs: Seq<(Seq<char>, Seq<char>)>, key: Seq<char>, value: Seq<char>) -> Seq<(Seq<char>, Seq<char>)> {
    if exists|i: int| 0 <= i < pairs.len() && (#[trigger] pairs[i]).0 == key {
        let at = choose|i: int| 0 <= i < pairs.len() && (#[trigger] pairs[i]).0 == key
            && forall|j: int| 0 <= j < i ==> pairs[j].0 != key;
        pairs.update(at, (key, value))
    } else {
        pairs.push((key, value))
    }
}

/// Set the text entry `key` of a record's data to `value`.
pub fn set_field(text: &mut Vec<(String, String)>, key: &str, value: &str)
    ensures
        pairs_of(final(text)@) == set_pair(pairs_of(old(text)@), key@, value@),
{
    let ghost t0 = pairs_of(text@);
    let k = to_string(key);
    let mut i: usize = 0;
    while i < text.len()
        invariant
            i <= text@.len(),
            t0 == pairs_of(text@),
            t0 == pairs_of(old(text)@),
            k@ == key@,
            forall|j: int| 0 <= j < i ==> t0[j].0 != key@,
        decreases text.len() - i,
    {
        if text[i].0 == k {
            proof {
                assert(t0[i as int].0 == key@);
                let w = choose|w: int| 0 <= w < t0.len() && (#[trigger] t0[w]).0 == key@
                    && forall|j: int| 0 <= j < w ==> t0[j].0 != key@;
                assert(w == i) by {
                    if w > i {
                        assert(t0[i as int].0 != key@);
                    }
                }
            }
            text.set(i, (k, to_string(value)));
            assert(pairs_of(text@) =~= set_pair(t0, key@, value@));
            return;
        }
        i += 1;
    }
    text.push((k, to_string(value)));
    assert(pairs_of(text@) =~= set_pair(t0, key@, value@));
}

pub open spec fn or_default(v: Option<Seq<char>>, d: Seq<char>) -> Seq<char> {
    match v {
        Some(s) => s,
        None => d,
    }
}

fn field_or(text: &Vec<(String, String)>, key: &str, default: &str) -> (r: String)
    ensures
        r@ == or_default(field_spec(text@, key@), default@),
{
    match field(text, key) {
        Some(s) => s,
        None => to_string(default),
    }
}

/// The item a record becomes when it is put in a folder: an app or a file by its target,
/// a folder that lives on disk by its directory. A folder with no directory (one made by
/// grouping) and any other kind cannot be an item.
pub open spec fn folder_item_spec(installed: Seq<InstalledPlugin>, kind: Seq<char>, text: Seq<(String, String)>) -> Option<ItemView> {
    if desktop_facts(installed, kind) matches Some((_, group)) && !group {
        Some((
            or_default(field_spec(text, "name"@), "app"@),
            or_default(field_spec(text, "target"@), ""@),
            or_default(field_spec(text, "icon"@), ""@),
            false,
        ))
    } else if kind == "folder"@ {
        let path = or_default(field_spec(text, "path"@), ""@);
        if path.len() == 0 {
            None
        } else {
            Some((or_default(field_spec(text, "name"@), "Folder"@), path, ""@, true))
        }
    } else {
        None
    }
}

/// The item a record becomes when it is put in a folder.
pub fn widget_as_folder_item(installed: &[InstalledPlugin], rec: &WidgetRecord) -> (r: Option<FolderItem>)
    ensures
        r matches Some(i) ==> folder_item_spec(installed@, rec.kind@, rec.text@) == Some(item_view(i)),
        r is None <==> folder_item_spec(installed@, rec.kind@, rec.text@) is None,
{
    if is_path_kind(installed, rec.kind.as_str()) {
        return Some(FolderItem {
            name: field_or(&rec.text, "name", "app"),
            target: field_or(&rec.text, "target", ""),
            icon: field_or(&rec.text, "icon", ""),
            is_dir: false,
        });
    }
    if chars_eq(&chars_of(rec.kind.as_str()), &chars_of("folder")) {
        let path = field_or(&rec.text, "path", "");
        if path.as_str().unicode_len() == 0 {
            return None;
        }
        return Some(FolderItem {
            name: field_or(&rec.text, "name", "Folder"),
            target: path,
            icon: to_string(""),
            is_dir: true,
        });
    }
    None
}

/// The path a record mirrors, when its kind stands for something on disk and the record
/// points somewhere: its path entry, trimmed, unless that is blank.
pub open spec fn record_path_spec(installed: Seq<InstalledPlugin>, kind: Seq<char>, text: Seq<(String, String)>) -> Option<Seq<char>> {
    match desktop_facts(installed, kind) {
        Some((key, _)) => match field_spec(text, key) {
            Some(v) => if trim_spec(v).len() > 0 { Some(trim_spec(v)) } else { None },
            None => None,
        },
        None => None,
    }
}

/// The path a record mirrors, when its kind stands for something on disk.
pub fn record_path(installed: &[InstalledPlugin], rec: &WidgetRecord) -> (r: Option<String>)
    ensures
        r matches Some(p) ==> record_path_spec(installed@, rec.kind@, rec.text@) == Some(p@),
        r is None <==> record_path_spec(installed@, rec.kind@, rec.text@) is None,
{
    let key = match path_key(installed, rec.kind.as_str()) {
        Some(k) => k,
        None => return None,
    };
    let value = match field(&rec.text, key.as_str()) {
        Some(v) => v,
        None => return None,
    };
    let t = trim(value.as_str());
    if t.len() == 0 {
        return None;
    }
    Some(string_of(&t))
}

// ------------------------------------------------------------------------------------
// Keeping the icons across a rescan
// ------------------------------------------------------------------------------------

/// An icon worth keeping: one that was resolved to something.
pub open spec fn usable_icon(icon: Seq<char>) -> bool {
    icon.len() > 0 && icon != "none"@
}

/// The first of the old items whose target (or name) is `key`.
pub open spec fn first_match(old: Seq<FolderItem>, key: Seq<char>, by_name: bool) -> Option<int> {
    if exists|j: int| 0 <= j < old.len() && #[trigger] item_key(old[j], by_name) == key {
        Some(choose|j: int| 0 <= j < old.len() && #[trigger] item_key(old[j], by_name) == key
            && forall|k: int| 0 <= k < j ==> item_key(old[k], by_name) != key)
    } else {
        None
    }
}

pub open spec fn item_key(i: FolderItem, by_name: bool) -> Seq<char> {
    if by_name { i.name@ } else { i.target@ }
}

/// An item after a rescan: the icon of the first old item with the same target (or
/// name), when that one had a usable icon; its own otherwise.
pub open spec fn carried(old: Seq<FolderItem>, item: ItemView, by_name: bool) -> ItemView {
    let key = if by_name { item.0 } else { item.1 };
    match first_match(old, key, by_name) {
        Some(j) => if usable_icon(old[j].icon@) { (item.0, item.1, old[j].icon@, item.3) } else { item },
        None => item,
    }
}

fn is_usable_icon(icon: &String) -> (r: bool)
    ensures
        r == usable_icon(icon@),
{
    let v = chars_of(icon.as_str());
    v.len() > 0 && !chars_eq(&v, &chars_of("none"))
}

fn find_old(old: &[FolderItem], key: &String, by_name: bool) -> (r: Option<usize>)
    ensures
        r matches Some(j) ==> j < old@.len() && first_match(old@, key@, by_name) == Some(j as int),
        r is None <==> first_match(old@, key@, by_name) is None,
{
    let mut j: usize = 0;
    while j < old.len()
        invariant
            j <= old.len(),
            forall|k: int| 0 <= k < j ==> item_key(old@[k], by_name) != key@,
        decreases old.len() - j,
    {
        let hit = if by_name { old[j].name == *key } else { old[j].target == *key };
        if hit {
            proof {
                let w = choose|w: int| 0 <= w < old@.len() && #[trigger] item_key(old@[w], by_name) == key@
                    && forall|k: int| 0 <= k < w ==> item_key(old@[k], by_name) != key@;
                assert(item_key(old@[j as int], by_name) == key@);
                assert(w == j) by {
                    if w > j {
                        assert(item_key(old@[j as int], by_name) != key@);
                    }
                }
            }
            return Some(j);
        }
        j += 1;
    }
    None
}

fn carry_icons(previous: &[FolderItem], items: &mut Vec<FolderItem>, by_name: bool)
    ensures
        items_view(final(items)@) == Seq::new(old(items)@.len(), |i: int| carried(previous@, item_view(old(items)@[i]), by_name)),
{
    let ghost start = items@;
    let mut i: usize = 0;
    while i < items.len()
        invariant
            i <= items.len() == start.len(),
            forall|k: int| i <= k < items@.len() ==> items@[k] == start[k],
            forall|k: int| 0 <= k < i ==> item_view(#[trigger] items@[k]) == carried(previous@, item_view(start[k]), by_name),
        decreases items.len() - i,
    {
        let key = if by_name { items[i].name.clone() } else { items[i].target.clone() };
        if let Some(j) = find_old(previous, &key, by_name) {
            if is_usable_icon(&previous[j].icon) {
                let icon = previous[j].icon.clone();
                let item = FolderItem {
                    name: items[i].name.clone(),
                    target: items[i].target.clone(),
                    icon,
                    is_dir: items[i].is_dir,
                };
                items.set(i, item);
            }
        }
        i += 1;
    }
    assert(items_view(items@) =~= Seq::new(start.len(), |i: int| carried(previous@, item_view(start[i]), by_name)));
}

/// Keep the icons already resolved for the same paths. A rescan returns items with
/// empty icons, and dropping the stored ones is what made folder tiles flap between an
/// icon and a blank tile on every launch.
pub fn carry_icons_by_target(previous: &[FolderItem], items: &mut Vec<FolderItem>)
    ensures
        items_view(final(items)@) == Seq::new(old(items)@.len(), |i: int| carried(previous@, item_view(old(items)@[i]), false)),
{
    carry_icons(previous, items, false)
}

/// Same, matched by name: for a rescan after the folder itself was renamed on disk,
/// where every target path moved but the items are the same files.
pub fn carry_icons_by_name(previous: &[FolderItem], items: &mut Vec<FolderItem>)
    ensures
        items_view(final(items)@) == Seq::new(old(items)@.len(), |i: int| carried(previous@, item_view(old(items)@[i]), true)),
{
    carry_icons(previous, items, true)
}

/// A rescan loses nothing but blank icons: every item keeps its name, target and kind,
/// and an icon is only ever replaced by a usable one.
pub proof fn a_rescan_keeps_the_items(old: Seq<FolderItem>, item: ItemView, by_name: bool)
    ensures
        carried(old, item, by_name).0 == item.0,
        carried(old, item, by_name).1 == item.1,
        carried(old, item, by_name).3 == item.3,
        carried(old, item, by_name).2 != item.2 ==> usable_icon(carried(old, item, by_name).2),
{
}

/// What a reconcile of the root found and did.
pub struct FilesSyncResult {
    pub files: usize,
    pub dirs: usize,
    pub total: usize,
    /// Whether this reconcile actually moved anything. The watcher fires it on any name
    /// change, and most of those turn out to be nothing.
    pub changed: bool,
}

/// The report of a reconcile that found `files` files and `dirs` folders.
pub fn sync_result(files: usize, dirs: usize, changed: bool) -> (r: FilesSyncResult)
    requires
        files + dirs <= usize::MAX,
    ensures
        r.files == files && r.dirs == dirs && r.total == files + dirs && r.changed == changed,
{
    FilesSyncResult { files, dirs, total: files + dirs, changed }
}

/// The first entry of `text` under `key`, found by its index, is what the record holds
/// under that key.
proof fn lemma_first_entry(text: Seq<(String, String)>, key: Seq<char>, n: int)
    requires
        0 <= n < text.len(),
        text[n].0@ == key,
        forall|j: int| 0 <= j < n ==> text[j].0@ != key,
    ensures
        field_spec(text, key) == Some(text[n].1@),
{
    let w = choose|w: int| 0 <= w < text.len() && #[trigger] text[w].0@ == key
        && forall|j: int| 0 <= j < w ==> text[j].0@ != key;
    assert(0 <= w < text.len() && text[w].0@ == key && forall|j: int| 0 <= j < w ==> text[j].0@ != key);
    assert(w == n) by {
        if w < n {
            assert(text[w].0@ != key);
        } else if w > n {
            assert(text[n].0@ != key);
        }
    }
}

/// The built-in folder kind groups its items rather than standing for one file.
proof fn lemma_folder_groups(installed: Seq<InstalledPlugin>)
    requires
        forall|j: int| 0 <= j < installed.len() ==> installed[j].id@ != "folder"@,
    ensures
        desktop_facts(installed, "folder"@) == Some(("path"@, true)),
{
    crate::plugins::lemma_folder_is_builtin_five();
}

/// A folder floatie put in a group keeps its name: the item is named by the record's
/// first `name` entry, points at its first `path` entry, and is a directory with no icon
/// of its own; only a folder without a `name` entry is called "Folder".
pub proof fn a_grouped_folder_keeps_its_name(installed: Seq<InstalledPlugin>, text: Seq<(String, String)>, p: int)
    requires
        forall|j: int| 0 <= j < installed.len() ==> installed[j].id@ != "folder"@,
        0 <= p < text.len(),
        text[p].0@ == "path"@,
        forall|j: int| 0 <= j < p ==> text[j].0@ != "path"@,
        text[p].1@.len() > 0,
    ensures
        forall|n: int| 0 <= n < text.len() && #[trigger] text[n].0@ == "name"@
            && (forall|j: int| 0 <= j < n ==> text[j].0@ != "name"@)
            ==> folder_item_spec(installed, "folder"@, text) == Some((text[n].1@, text[p].1@, ""@, true)),
        (forall|j: int| 0 <= j < text.len() ==> text[j].0@ != "name"@)
            ==> folder_item_spec(installed, "folder"@, text) == Some(("Folder"@, text[p].1@, ""@, true)),
{
    lemma_folder_groups(installed);
    lemma_first_entry(text, "path"@, p);
    assert forall|n: int| 0 <= n < text.len() && #[trigger] text[n].0@ == "name"@
        && (forall|j: int| 0 <= j < n ==> text[j].0@ != "name"@)
        implies folder_item_spec(installed, "folder"@, text) == Some((text[n].1@, text[p].1@, ""@, true)) by {
        lemma_first_entry(text, "name"@, n);
    }
}

} // verus!
