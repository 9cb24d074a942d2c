//! The smaller things done to the desktop's files: the clipboard, deleting, shortcuts in
//! the root, renaming a folder's directory, and the name an item takes when it moves.
//!
//! The disk, the clipboard and the Recycle Bin are the caller's; what is asked of them,
//! and what is said afterwards, is decided here.

use vstd::prelude::*;
use crate::desktop::is_lnk_path;
use crate::folders::{field, field_spec, pairs_of, set_field, set_pair, WidgetRecord};
use crate::merge::is_lnk_spec;
use crate::naming::{checked_name, name_refusal, same_place, shortcut_file_name, shortcut_file_name_spec};
use crate::palette_run::record_with_id;
use crate::paths::{comps, file_name, file_name_spec, join, join_spec, parent, parent_spec, path_starts_with, starts_with_spec};
use crate::plugins::strings;
use crate::text::{chars_eq, chars_of, concat, push_str, string_of, to_string, trim, trim_spec};

verus! {

broadcast use vstd::seq_lib::group_seq_properties;

// ------------------------------------------------------------------------------------
// The clipboard
// ------------------------------------------------------------------------------------

/// The file a floatie stands for, for the clipboard: its `target`, else its `path`.
pub open spec fn clip_path(r: WidgetRecord) -> Option<Seq<char>> {
    match field_spec(r.text@, "target"@) {
        Some(t) => Some(t),
        None => field_spec(r.text@, "path"@),
    }
}

/// The files of the floaties `ids` (in that order), skipping ids with no record and
/// records with no file.
pub open spec fn clip_paths(records: Seq<WidgetRecord>, ids: Seq<String>) -> Seq<Seq<char>>
    decreases ids.len(),
{
    if ids.len() == 0 {
        seq![]
    } else {
        let prev = clip_paths(records, ids.drop_last());
        match record_with_id(records, ids.last()@) {
            Some(i) => match clip_path(records[i]) {
                Some(p) => prev.push(p),
                None => prev,
            },
            None => prev,
        }
    }
}

fn record_of(records: &Vec<WidgetRecord>, id: &String) -> (r: Option<usize>)
    ensures
        r matches Some(i) ==> i < records@.len() && record_with_id(records@, id@) == Some(i as int),
        r is None <==> record_with_id(records@, id@) is None,
{
    let mut i: usize = 0;
    while i < records.len()
        invariant
            i <= records@.len(),
            forall|j: int| 0 <= j < i ==> records@[j].id@ != id@,
        decreases records.len() - i,
    {
        if records[i].id == *id {
            proof {
                let w = choose|w: int| 0 <= w < records@.len() && (#[trigger] records@[w]).id@ == id@
                    && forall|j: int| 0 <= j < w ==> records@[j].id@ != id@;
                assert(records@[i as int].id@ == id@);
                assert(w == i) by {
                    if w > i {
                        assert(records@[i as int].id@ != id@);
                    }
                }
            }
            return Some(i);
        }
        i += 1;
    }
    None
}

/// The files to put on the clipboard for these floaties; refused when there are none.
pub fn clipboard_paths(records: &Vec<WidgetRecord>, ids: &Vec<String>) -> (r: Result<Vec<String>, String>)
    ensures
        match r {
            Ok(ps) => strings(ps@) == clip_paths(records@, ids@) && ps@.len() > 0,
            Err(e) => clip_paths(records@, ids@).len() == 0 && e@ == "nothing to copy"@,
        },
{
    let mut out: Vec<String> = Vec::new();
    let mut k: usize = 0;
    while k < ids.len()
        invariant
            k <= ids@.len(),
            strings(out@) == clip_paths(records@, ids@.take(k as int)),
        decreases ids.len() - k,
    {
        proof {
            assert(ids@.take(k + 1).drop_last() =~= ids@.take(k as int));
        }
        match record_of(records, &ids[k]) {
            Some(i) => {
                let p = match field(&records[i].text, "target") {
                    Some(t) => Some(t),
                    None => field(&records[i].text, "path"),
                };
                match p {
                    Some(p) => {
                        let ghost before = strings(out@);
                        out.push(p);
                        assert(strings(out@) =~= before.push(out@.last()@));
                    },
                    None => {},
                }
            },
            None => {},
        }
        k += 1;
    }
    assert(ids@.take(ids@.len() as int) =~= ids@);
    if out.len() == 0 {
        return Err(to_string("nothing to copy"));
    }
    Ok(out)
}

/// What a paste pastes: the clipboard's files, else the paths its text names (those
/// that exist), with the word the log uses for where they came from; refused when there
/// are none.
pub fn paste_plan(files: Vec<String>, text_paths: Option<Vec<String>>) -> (r: Result<(Vec<String>, &'static str), String>)
    ensures
        files@.len() > 0 ==> (r matches Ok((ps, from)) && ps@ == files@ && from@ == "files"@),
        files@.len() == 0 ==> match text_paths {
            Some(t) => if t@.len() > 0 {
                r matches Ok((ps, from)) && ps@ == t@ && from@ == "text"@
            } else {
                r matches Err(e) && e@ == "the clipboard has no files (or a path) on it"@
            },
            None => r matches Err(e) && e@ == "the clipboard has no files (or a path) on it"@,
        },
{
    if files.len() > 0 {
        return Ok((files, "files"));
    }
    match text_paths {
        Some(t) => {
            if t.len() > 0 {
                Ok((t, "text"))
            } else {
                Err(to_string("the clipboard has no files (or a path) on it"))
            }
        },
        None => Err(to_string("the clipboard has no files (or a path) on it")),
    }
}

// ------------------------------------------------------------------------------------
// Deleting
// ------------------------------------------------------------------------------------

/// Is this a file the app looks after, so that deleting its floatie deletes it: one in
/// the pointed root, or on the user's desktop (`home` is the profile folder, when known)?
pub open spec fn managed_spec(path: Seq<char>, root: Seq<char>, home: Option<Seq<char>>) -> bool {
    (trim_spec(root).len() > 0 && starts_with_spec(path, root))
        || (home matches Some(h) && starts_with_spec(path, join_spec(h, "Desktop"@)))
}

pub fn is_managed(path: &str, root: &str, home: Option<&str>) -> (r: bool)
    ensures
        r == managed_spec(path@, root@, match home { Some(h) => Some(h@), None => None }),
{
    if trim(root).len() > 0 && path_starts_with(path, root) {
        return true;
    }
    match home {
        Some(h) => path_starts_with(path, join(h, "Desktop").as_str()),
        None => false,
    }
}

/// Does deleting this floatie delete its file: only a file, folder or app floatie whose
/// file the app looks after. Removing the floatie of an installed program must not
/// uninstall it.
pub fn deletes_file(kind: &str, managed: bool) -> (r: bool)
    ensures
        r == (managed && (kind@ == "file"@ || kind@ == "folder"@ || kind@ == "app"@)),
{
    let k = chars_of(kind);
    managed && (chars_eq(&k, &chars_of("file")) || chars_eq(&k, &chars_of("folder")) || chars_eq(&k, &chars_of("app")))
}

/// What a delete says: where the file went, as the shell reported it (`Some(true)` the
/// Recycle Bin, `Some(false)` deleted outright), or that the file stays (`None`: the
/// floatie was all that went).
pub open spec fn delete_note_spec(path: Seq<char>, to_bin: Option<bool>) -> Seq<char> {
    match to_bin {
        Some(true) => "moved '"@ + path + "' to the recycle bin"@,
        Some(false) => "deleted '"@ + path + "' for good \u{2014} this drive's Recycle Bin would not take it"@,
        None => "removed the floatie; '"@ + path + "' stays on disk"@,
    }
}

pub fn delete_note(path: &str, to_bin: Option<bool>) -> (r: String)
    ensures
        r@ == delete_note_spec(path@, to_bin),
{
    match to_bin {
        Some(true) => {
            let mut r = concat("moved '", path);
            push_str(&mut r, "' to the recycle bin");
            r
        },
        Some(false) => {
            let mut r = concat("deleted '", path);
            push_str(&mut r, "' for good \u{2014} this drive's Recycle Bin would not take it");
            r
        },
        None => {
            let mut r = concat("removed the floatie; '", path);
            push_str(&mut r, "' stays on disk");
            r
        },
    }
}

// ------------------------------------------------------------------------------------
// Shortcuts in the root
// ------------------------------------------------------------------------------------

/// Does an app launcher get a shortcut file in the root: when there is a root, the app is
/// not in it already, and it exists.
pub fn wants_root_shortcut(root: Option<&str>, path: &str, exists: bool) -> (r: bool)
    ensures
        r == (match root { Some(rt) => !starts_with_spec(path@, rt@) && exists, None => false }),
{
    match root {
        Some(rt) => !path_starts_with(path, rt) && exists,
        None => false,
    }
}

/// The shortcut an app gets in the root: a copy of the one it is floated through (keeping
/// its arguments, working directory and icon), or a new one named after its label. Says
/// whether it is a copy, and the file name; refused for a path with no file name.
pub open spec fn root_shortcut_spec(path: Seq<char>, label: Seq<char>) -> Result<(bool, Seq<char>), Seq<char>> {
    match file_name_spec(path) {
        Some(n) => if is_lnk_spec(path) { Ok((true, n)) } else { Ok((false, shortcut_file_name_spec(label))) },
        None => Err(path + " has no file name"@),
    }
}

pub fn root_shortcut(path: &str, label: &str) -> (r: Result<(bool, String), String>)
    ensures
        match r {
            Ok((copy, name)) => root_shortcut_spec(path@, label@) == Ok::<(bool, Seq<char>), Seq<char>>((copy, name@)),
            Err(e) => root_shortcut_spec(path@, label@) == Err::<(bool, Seq<char>), Seq<char>>(e@),
        },
{
    match file_name(path) {
        Some(n) => {
            if is_lnk_path(path) {
                Ok((true, string_of(&n)))
            } else {
                Ok((false, shortcut_file_name(label)))
            }
        },
        None => Err(concat(path, " has no file name")),
    }
}

// ------------------------------------------------------------------------------------
// Moving and renaming
// ------------------------------------------------------------------------------------

/// The name an item takes when it is moved into a directory: a name chosen for it,
/// checked the way Explorer checks a typed one, or its own name, which Windows already
/// accepted once; refused for an item with no name.
pub open spec fn placed_name_spec(from: Seq<char>, name: Option<Seq<char>>) -> Result<Seq<char>, Seq<char>> {
    match name {
        Some(n) => match name_refusal(n) {
            Some(why) => Err(why),
            None => Ok(trim_spec(n)),
        },
        None => match file_name_spec(from) {
            Some(f) => Ok(f),
            None => Err(from + " has no file name"@),
        },
    }
}

pub fn placed_name(from: &str, name: Option<&str>) -> (r: Result<String, String>)
    ensures
        match r {
            Ok(n) => placed_name_spec(from@, match name { Some(s) => Some(s@), None => None }) == Ok::<Seq<char>, Seq<char>>(n@),
            Err(e) => placed_name_spec(from@, match name { Some(s) => Some(s@), None => None }) == Err::<Seq<char>, Seq<char>>(e@),
        },
{
    match name {
        Some(n) => checked_name(n),
        None => match file_name(from) {
            Some(f) => Ok(string_of(&f)),
            None => Err(concat(from, " has no file name")),
        },
    }
}

/// Where a folder's directory goes when the folder is renamed: beside itself, under the
/// new name; nothing when it has no directory, no parent, or the name is the same place.
pub open spec fn folder_rename_dest_spec(path: Option<Seq<char>>, new_name: Seq<char>) -> Option<Seq<char>> {
    match path {
        Some(p) => match parent_spec(p) {
            Some(par) => if comps(join_spec(par, new_name)) != comps(p) { Some(join_spec(par, new_name)) } else { None },
            None => None,
        },
        None => None,
    }
}

pub fn folder_rename_dest(path: Option<&str>, new_name: &str) -> (r: Option<String>)
    ensures
        match r {
            Some(d) => folder_rename_dest_spec(match path { Some(p) => Some(p@), None => None }, new_name@) == Some(d@),
            None => folder_rename_dest_spec(match path { Some(p) => Some(p@), None => None }, new_name@) is None,
        },
{
    match path {
        Some(p) => match parent(p) {
            Some(par) => {
                let dest = join(par.as_str(), new_name);
                if !same_place(dest.as_str(), p) { Some(dest) } else { None }
            },
            None => None,
        },
        None => None,
    }
}

/// A folder whose directory was renamed: its path is the new one, its name the new name.
pub fn renamed_folder_entries(text: &mut Vec<(String, String)>, new_path: &str, new_name: &str)
    ensures
        pairs_of(final(text)@) == set_pair(set_pair(pairs_of(old(text)@), "path"@, new_path@), "name"@, new_name@),
{
    set_field(text, "path", new_path);
    set_field(text, "name", new_name);
}

} // verus!
