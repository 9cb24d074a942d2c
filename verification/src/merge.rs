//! Dropping one floatie on another: where the drop is judged, which floatie it lands on,
//! and what the folder that takes it ends up holding.
//!
//! Windows, screens and files are the caller's: it hands in the rectangles the floaties
//! are drawn in and the screens the points fall on, and carries out what comes back.

use vstd::prelude::*;
use crate::desktop::{can_move_into_folder, is_lnk_path};
use crate::folders::{item_view, items_view, FolderItem, ItemView};
use crate::naming::{shortcut_file_name, shortcut_file_name_spec};
use crate::paths::{extension_spec, file_name, file_name_spec, starts_with_spec};
use crate::plugins::{desktop_facts, is_desktop_item, InstalledPlugin};
use crate::text::{
    chars_eq, chars_of, concat, opt_chars, eq_ignore_ascii_case, push_str, string_of, to_string, trim, trim_spec,
};

verus! {

broadcast use vstd::seq_lib::group_seq_properties;

// ------------------------------------------------------------------------------------
// Where the drop is
// ------------------------------------------------------------------------------------

/// Where a drop is judged, from the page's point and the record's own position, each with
/// the screen it falls on. The page's point counts while it agrees with the record about
/// the screen; after a drag that crossed screens it does not, and the record, which the
/// drag kept up to date, is where the floatie really is. `None` when that point is on no
/// screen at all: the floatie has to be brought back first.
pub open spec fn drop_point_spec(
    page: (i32, i32),
    page_screen: Option<usize>,
    stored: (i32, i32),
    stored_screen: Option<usize>,
) -> Option<(i32, i32)> {
    let (p, s) = if page_screen == stored_screen { (page, page_screen) } else { (stored, stored_screen) };
    if s is None {
        None
    } else {
        Some(p)
    }
}

pub fn drop_point(
    page: (i32, i32),
    page_screen: Option<usize>,
    stored: (i32, i32),
    stored_screen: Option<usize>,
) -> (r: Option<(i32, i32)>)
    ensures
        r == drop_point_spec(page, page_screen, stored, stored_screen),
{
    let (p, s) = if page_screen == stored_screen { (page, page_screen) } else { (stored, stored_screen) };
    if s.is_none() {
        None
    } else {
        Some(p)
    }
}

/// The middle of a floatie of `size` standing at `at`.
pub fn drop_center(at: (i32, i32), size: (u32, u32)) -> (r: (i32, i32))
    requires
        at.0 + size.0 / 2 <= i32::MAX,
        at.1 + size.1 / 2 <= i32::MAX,
    ensures
        r.0 == at.0 + size.0 / 2,
        r.1 == at.1 + size.1 / 2,
{
    let hw = (size.0 / 2) as i64;
    let hh = (size.1 / 2) as i64;
    ((at.0 as i64 + hw) as i32, (at.1 as i64 + hh) as i32)
}

// ------------------------------------------------------------------------------------
// What it lands on
// ------------------------------------------------------------------------------------

/// A floatie's window on the desktop, in physical pixels.
#[derive(Clone, Copy, Debug)]
pub struct Rect {
    pub x: i32,
    pub y: i32,
    pub w: i32,
    pub h: i32,
}

/// How far outside a floatie's window a drop still lands on it.
pub const DROP_SLOP: i32 = 12;

/// Does a drop at `p` land on the window `r`, give or take the slop?
pub open spec fn covers(r: Rect, p: (i32, i32)) -> bool {
    let hx = r.x - DROP_SLOP;
    let hy = r.y - DROP_SLOP;
    &&& hx <= p.0 < hx + r.w + 2 * DROP_SLOP
    &&& hy <= p.1 < hy + r.h + 2 * DROP_SLOP
}

fn covers_exec(r: Rect, p: (i32, i32)) -> (b: bool)
    ensures
        b == covers(r, p),
{
    let hx = r.x as i64 - 12;
    let hy = r.y as i64 - 12;
    let (px, py) = (p.0 as i64, p.1 as i64);
    hx <= px && px < hx + r.w as i64 + 24 && hy <= py && py < hy + r.h as i64 + 24
}

/// Another floatie the drop could land on, with the window it is drawn in (none when it
/// has no window to measure).
pub struct MergeCandidate {
    pub id: String,
    pub kind: String,
    pub rect: Option<Rect>,
}

/// Does candidate `c` take a drop of `dragged` at `p`? Not the dragged floatie itself,
/// only a floatie that stands for something on disk, and only where it is drawn.
pub open spec fn takes_drop(installed: Seq<InstalledPlugin>, dragged: Seq<char>, c: MergeCandidate, p: (i32, i32)) -> bool {
    &&& c.id@ != dragged
    &&& desktop_facts(installed, c.kind@) is Some
    &&& (c.rect matches Some(r) && covers(r, p))
}

/// The floatie a drop at `center` lands on: the first candidate that takes it.
pub fn merge_target(installed: &[InstalledPlugin], dragged: &str, center: (i32, i32), cands: &[MergeCandidate]) -> (r: Option<usize>)
    ensures
        r matches Some(i) ==> i < cands@.len() && takes_drop(installed@, dragged@, cands@[i as int], center)
            && forall|j: int| 0 <= j < i ==> !takes_drop(installed@, dragged@, #[trigger] cands@[j], center),
        r is None ==> forall|j: int| 0 <= j < cands@.len() ==> !takes_drop(installed@, dragged@, #[trigger] cands@[j], center),
{
    let me = chars_of(dragged);
    let mut i: usize = 0;
    while i < cands.len()
        invariant
            i <= cands@.len(),
            me@ == dragged@,
            forall|j: int| 0 <= j < i ==> !takes_drop(installed@, dragged@, #[trigger] cands@[j], center),
        decreases cands.len() - i,
    {
        let c = &cands[i];
        let lands = !chars_eq(&chars_of(c.id.as_str()), &me) && is_desktop_item(installed, c.kind.as_str())
            && match c.rect {
            Some(r) => covers_exec(r, center),
            None => false,
        };
        if lands {
            return Some(i);
        }
        i += 1;
    }
    None
}

// ------------------------------------------------------------------------------------
// What the folder takes
// ------------------------------------------------------------------------------------

/// A dragged item without a target has nothing to put in a folder.
pub fn has_target(item: &FolderItem) -> (r: bool)
    ensures
        r == (trim_spec(item.target@).len() > 0),
{
    trim(item.target.as_str()).len() > 0
}

/// Does the folder already hold an item with this target?
pub open spec fn holds_target(items: Seq<FolderItem>, target: Seq<char>) -> bool {
    exists|j: int| 0 <= j < items.len() && (#[trigger] items[j]).target@ == target
}

pub fn folder_holds(items: &Vec<FolderItem>, target: &str) -> (r: bool)
    ensures
        r == holds_target(items@, target@),
{
    let t = chars_of(target);
    let mut i: usize = 0;
    while i < items.len()
        invariant
            i <= items@.len(),
            t@ == target@,
            forall|j: int| 0 <= j < i ==> (#[trigger] items@[j]).target@ != target@,
        decreases items.len() - i,
    {
        if chars_eq(&chars_of(items[i].target.as_str()), &t) {
            return true;
        }
        i += 1;
    }
    false
}

/// A file that comes in without an icon takes the one resolved for its target.
pub open spec fn with_icon(it: ItemView, resolved: Seq<char>) -> ItemView {
    if it.2.len() == 0 && !it.3 {
        (it.0, it.1, resolved, it.3)
    } else {
        it
    }
}

/// Does this item want an icon resolved before it goes in?
pub fn needs_icon(item: &FolderItem) -> (r: bool)
    ensures
        r == (item.icon@.len() == 0 && !item.is_dir),
{
    chars_of(item.icon.as_str()).len() == 0 && !item.is_dir
}

pub fn fill_icon(item: &mut FolderItem, resolved: &str)
    ensures
        item_view(*final(item)) == with_icon(item_view(*old(item)), resolved@),
{
    if chars_of(item.icon.as_str()).len() == 0 && !item.is_dir {
        item.icon = to_string(resolved);
    }
}

/// The folder takes the dragged item, unless it already holds that target; `resolved`
/// is the icon for an item that comes in without one. Says whether it was taken.
pub fn add_to_folder(items: &mut Vec<FolderItem>, dragged: FolderItem, resolved: &str) -> (taken: bool)
    ensures
        taken == !holds_target(old(items)@, dragged.target@),
        taken ==> items_view(final(items)@) == items_view(old(items)@).push(with_icon(item_view(dragged), resolved@)),
        !taken ==> final(items)@ == old(items)@,
{
    if folder_holds(items, dragged.target.as_str()) {
        return false;
    }
    let mut d = dragged;
    fill_icon(&mut d, resolved);
    let ghost before = items@;
    items.push(d);
    assert(items_view(items@) =~= items_view(before).push(item_view(d)));
    true
}

/// The name of the folder a grouping made: its directory's name, or `Folder`.
pub open spec fn group_name_spec(dir: Seq<char>) -> Seq<char> {
    match file_name_spec(dir) {
        Some(n) => n,
        None => "Folder"@,
    }
}

pub fn group_name(dir: &str) -> (r: String)
    ensures
        r@ == group_name_spec(dir@),
{
    match file_name(dir) {
        Some(n) => string_of(&n),
        None => to_string("Folder"),
    }
}

// ------------------------------------------------------------------------------------
// Putting an item inside a directory
// ------------------------------------------------------------------------------------

/// How an item goes into a folder's directory, and under which file name (before it is
/// made unique there).
pub enum Placement {
    /// The root owns the file: it moves.
    Move { name: String },
    /// From outside, and already a shortcut: the shortcut is copied, which keeps its
    /// arguments, working directory and icon.
    CopyShortcut { name: String },
    /// From outside: a new shortcut to it is written.
    WriteShortcut { name: String },
}

pub enum PlacementView {
    Move(Seq<char>),
    CopyShortcut(Seq<char>),
    WriteShortcut(Seq<char>),
}

pub open spec fn placement_view(p: Placement) -> PlacementView {
    match p {
        Placement::Move { name } => PlacementView::Move(name@),
        Placement::CopyShortcut { name } => PlacementView::CopyShortcut(name@),
        Placement::WriteShortcut { name } => PlacementView::WriteShortcut(name@),
    }
}

pub open spec fn is_lnk_spec(path: Seq<char>) -> bool {
    extension_spec(path) matches Some(e) && eq_ignore_ascii_case(e, "lnk"@)
}

/// The placement of an item whose target is `src` and whose caption is `label`, with
/// `root` the pointed root: `Err` with the sentence to log when `src` has no file name.
pub open spec fn placement_spec(root: Option<Seq<char>>, src: Seq<char>, label: Seq<char>) -> Result<PlacementView, Seq<char>> {
    let owned = match root { Some(rt) => starts_with_spec(src, rt), None => false };
    if owned || is_lnk_spec(src) {
        match file_name_spec(src) {
            Some(n) => Ok(if owned { PlacementView::Move(n) } else { PlacementView::CopyShortcut(n) }),
            None => Err(src + " has no file name"@),
        }
    } else {
        Ok(PlacementView::WriteShortcut(shortcut_file_name_spec(label)))
    }
}

pub fn placement(root: Option<&str>, src: &str, label: &str) -> (r: Result<Placement, String>)
    ensures
        match r {
            Ok(p) => placement_spec(opt_chars(root), src@, label@) == Ok::<PlacementView, Seq<char>>(placement_view(p)),
            Err(e) => placement_spec(opt_chars(root), src@, label@) == Err::<PlacementView, Seq<char>>(e@),
        },
{
    let owned = can_move_into_folder(root, src);
    let lnk = is_lnk_path(src);
    if owned || lnk {
        match file_name(src) {
            Some(n) => {
                let name = string_of(&n);
                if owned {
                    Ok(Placement::Move { name })
                } else {
                    Ok(Placement::CopyShortcut { name })
                }
            },
            None => Err(concat(src, " has no file name")),
        }
    } else {
        Ok(Placement::WriteShortcut { name: shortcut_file_name(label) })
    }
}

// ------------------------------------------------------------------------------------
// Undoing a placement
// ------------------------------------------------------------------------------------

/// What undoing one placed item takes: the file moved (put it back), a copy or shortcut
/// was written beside an original that stayed (take the new file away), or nothing.
pub enum PlacedUndo {
    Moved { from: String, to: String },
    Discard { path: String },
    Nothing,
}

/// Which one happened is a question about the disk: whether the source is still there.
pub fn placed_undo(source: &str, target: &str, source_still_there: bool) -> (r: PlacedUndo)
    ensures
        !source_still_there ==> (r matches PlacedUndo::Moved { from, to } && from@ == source@ && to@ == target@),
        source_still_there && target@ != source@ ==> (r matches PlacedUndo::Discard { path } && path@ == target@),
        source_still_there && target@ == source@ ==> r is Nothing,
{
    if !source_still_there {
        PlacedUndo::Moved { from: to_string(source), to: to_string(target) }
    } else if !chars_eq(&chars_of(target), &chars_of(source)) {
        PlacedUndo::Discard { path: to_string(target) }
    } else {
        PlacedUndo::Nothing
    }
}

// ------------------------------------------------------------------------------------
// The merge, as one decision
// ------------------------------------------------------------------------------------

/// What a merge does once it has a target.
pub enum MergePlan {
    /// Into a folder floatie: the item is placed into the folder's directory first, when
    /// the folder has one that is on disk, then added to the folder's items.
    IntoFolder { place_in: Option<String> },
    /// Onto an app or a file, with a desktop folder: a new folder is made in it, and both
    /// items are placed into that.
    NewFolderOnDisk { root: String },
    /// Onto an app or a file, with no desktop folder (or none could be made): both items
    /// go into a folder floatie of the app's own, called `Folder`.
    InAppFolder,
}

pub enum MergePlanView {
    IntoFolder(Option<Seq<char>>),
    NewFolderOnDisk(Seq<char>),
    InAppFolder,
}

pub open spec fn merge_plan_view(p: MergePlan) -> MergePlanView {
    match p {
        MergePlan::IntoFolder { place_in } => MergePlanView::IntoFolder(match place_in { Some(d) => Some(d@), None => None }),
        MergePlan::NewFolderOnDisk { root } => MergePlanView::NewFolderOnDisk(root@),
        MergePlan::InAppFolder => MergePlanView::InAppFolder,
    }
}

pub open spec fn merge_plan_spec(dragged_target: Seq<char>, target_kind: Seq<char>, folder_path: Option<Seq<char>>, folder_dir_exists: bool, root: Option<Seq<char>>) -> Option<MergePlanView> {
    if crate::text::trim_spec(dragged_target).len() == 0 {
        None
    } else if target_kind == "folder"@ {
        Some(MergePlanView::IntoFolder(match folder_path {
            Some(p) => if folder_dir_exists { Some(p) } else { None },
            None => None,
        }))
    } else {
        match root {
            Some(r) => Some(MergePlanView::NewFolderOnDisk(r)),
            None => Some(MergePlanView::InAppFolder),
        }
    }
}

/// What dropping a floatie whose item targets `dragged_target` onto a floatie of kind
/// `target_kind` does: nothing for an item that points nowhere; into the target when it
/// is a folder (through its directory, when `folder_path` names one and
/// `folder_dir_exists` says it is there); else a new folder, on disk in `root` when there
/// is one. The caller does the disk work, and falls back to the app's own folder when
/// the new folder could not be made.
pub fn merge_plan(dragged_target: &str, target_kind: &str, folder_path: Option<&str>, folder_dir_exists: bool, root: Option<&str>) -> (r: Option<MergePlan>)
    ensures
        (match r { Some(p) => Some(merge_plan_view(p)), None => None })
            == merge_plan_spec(dragged_target@, target_kind@, crate::text::opt_chars(folder_path), folder_dir_exists, crate::text::opt_chars(root)),
{
    proof {
        reveal_strlit("folder");
    }
    if crate::text::trim(dragged_target).len() == 0 {
        return None;
    }
    if crate::text::chars_eq(&crate::text::chars_of(target_kind), &crate::text::chars_of("folder")) {
        let place_in = match folder_path {
            Some(p) => if folder_dir_exists { Some(crate::text::to_string(p)) } else { None },
            None => None,
        };
        return Some(MergePlan::IntoFolder { place_in });
    }
    match root {
        Some(r) => Some(MergePlan::NewFolderOnDisk { root: crate::text::to_string(r) }),
        None => Some(MergePlan::InAppFolder),
    }
}

} // verus!
