//! Files arriving from outside: a drop from Explorer, or a paste.
//!
//! Where they land is where they were dropped: on a folder floatie means into that
//! folder's directory, anywhere else means into the folder the desktop shows. The same
//! volume moves, another volume copies, and a program's own files come in as shortcuts.
//! A path already in the desktop's folder is not copied anywhere: dropped on the desktop
//! it is a move of your own file. Touching the disk, and the screens the floaties are kept
//! on, are the caller's.

use vstd::prelude::*;
use crate::desktop::{arrival, arrival_spec, Arrival};
use crate::folders::{field, field_spec, WidgetRecord};
use crate::naming::same_place;
use crate::paths::{comps, file_name, file_name_spec, path_starts_with, starts_with_spec};
use crate::text::{
    dec_digits, eq_ignore_ascii_case, eq_ignore_case, chars_of, join, join_spec, push_dec, push_str, string_of, to_string,
};

verus! {

broadcast use vstd::seq_lib::group_seq_properties;

/// What becomes of one dropped path.
pub enum DropStep {
    /// Already in the desktop's folder and dropped onto the desktop: it stays, and its
    /// floatie moves to the drop.
    AlreadyHere,
    /// Moved into the destination, under this name (before it is made unique there).
    Move { name: String },
    /// Copied into the destination, under this name.
    Copy { name: String },
    /// A folder on another drive: not copied, because a recursive copy is not a drop's
    /// job.
    FolderAcrossVolumes,
    /// A program's own file: a shortcut comes in, labelled with this name.
    Shortcut { name: String },
}

pub enum DropStepView {
    AlreadyHere,
    Move(Seq<char>),
    Copy(Seq<char>),
    FolderAcrossVolumes,
    Shortcut(Seq<char>),
}

pub open spec fn drop_step_view(d: DropStep) -> DropStepView {
    match d {
        DropStep::AlreadyHere => DropStepView::AlreadyHere,
        DropStep::Move { name } => DropStepView::Move(name@),
        DropStep::Copy { name } => DropStepView::Copy(name@),
        DropStep::FolderAcrossVolumes => DropStepView::FolderAcrossVolumes,
        DropStep::Shortcut { name } => DropStepView::Shortcut(name@),
    }
}

/// The step for `path` (a directory when `is_dir`), dropped with `root` the desktop's
/// folder and `dest_dir` where the drop lands.
pub open spec fn drop_step_spec(path: Seq<char>, is_dir: bool, root: Seq<char>, dest_dir: Seq<char>) -> DropStepView {
    let into_a_folder = comps(dest_dir) != comps(root);
    let inside = starts_with_spec(path, root);
    if inside && !into_a_folder {
        DropStepView::AlreadyHere
    } else {
        let name = match file_name_spec(path) {
            Some(n) => n,
            None => seq![],
        };
        match arrival_spec(path, inside, dest_dir) {
            Arrival::Move => DropStepView::Move(name),
            Arrival::Copy => if is_dir { DropStepView::FolderAcrossVolumes } else { DropStepView::Copy(name) },
            Arrival::Shortcut => DropStepView::Shortcut(name),
        }
    }
}

pub fn drop_step(path: &str, is_dir: bool, root: &str, dest_dir: &str) -> (r: DropStep)
    ensures
        drop_step_view(r) == drop_step_spec(path@, is_dir, root@, dest_dir@),
{
    let into_a_folder = !same_place(dest_dir, root);
    let inside = path_starts_with(path, root);
    if inside && !into_a_folder {
        return DropStep::AlreadyHere;
    }
    let name = match file_name(path) {
        Some(n) => string_of(&n),
        None => String::new(),
    };
    proof {
        reveal_strlit("");
    }
    match arrival(path, inside, dest_dir) {
        Arrival::Move => DropStep::Move { name },
        Arrival::Copy => if is_dir { DropStep::FolderAcrossVolumes } else { DropStep::Copy { name } },
        Arrival::Shortcut => DropStep::Shortcut { name },
    }
}

/// What the drop says when something landed: how many, where, how many floaties were
/// placed at the drop, and what was refused. `into` is the folder it went into, when it
/// was not the desktop's own.
pub open spec fn drop_report_spec(landed: nat, into: Option<Seq<char>>, placed: nat, refused: Seq<String>) -> Seq<char> {
    let where_ = match into {
        Some(d) => "into "@ + d,
        None => "onto the desktop"@,
    };
    let head = dec_digits(landed) + " item(s) "@ + where_;
    let with_placed = if placed > 0 { head + ", "@ + dec_digits(placed) + " placed at the drop"@ } else { head };
    if refused.len() > 0 {
        with_placed + " \u{2014} refused: "@ + join_spec(refused, "; "@)
    } else {
        with_placed
    }
}

pub fn drop_report(landed: u64, into: Option<&str>, placed: u64, refused: &[String]) -> (r: String)
    ensures
        r@ == drop_report_spec(landed as nat, match into { Some(d) => Some(d@), None => None }, placed as nat, refused@),
{
    let mut r = String::new();
    proof {
        reveal_strlit("");
    }
    push_dec(&mut r, landed);
    push_str(&mut r, " item(s) ");
    match into {
        Some(d) => {
            push_str(&mut r, "into ");
            push_str(&mut r, d);
        },
        None => push_str(&mut r, "onto the desktop"),
    }
    if placed > 0 {
        push_str(&mut r, ", ");
        push_dec(&mut r, placed);
        push_str(&mut r, " placed at the drop");
    }
    if refused.len() > 0 {
        push_str(&mut r, " \u{2014} refused: ");
        let j = join(refused, "; ");
        push_str(&mut r, j.as_str());
    }
    r
}

/// What the drop says when nothing landed: every refusal, joined.
pub fn refusals(refused: &[String]) -> (r: String)
    ensures
        r@ == join_spec(refused@, "; "@),
{
    join(refused, "; ")
}

// ------------------------------------------------------------------------------------
// Putting the arrivals where the drop was
// ------------------------------------------------------------------------------------

/// Does record `r` stand for `target`: its `path` or its `target`, without ASCII case?
pub open spec fn stands_for(r: WidgetRecord, target: Seq<char>) -> bool {
    ||| (field_spec(r.text@, "path"@) matches Some(p) && eq_ignore_ascii_case(p, target))
    ||| (field_spec(r.text@, "target"@) matches Some(p) && eq_ignore_ascii_case(p, target))
}

/// The record for a file that just arrived: the first that stands for it.
pub fn record_for_arrival(records: &Vec<WidgetRecord>, target: &str) -> (r: Option<usize>)
    ensures
        r matches Some(i) ==> i < records@.len() && stands_for(records@[i as int], target@)
            && forall|j: int| 0 <= j < i ==> !stands_for(#[trigger] records@[j], target@),
        r is None ==> forall|j: int| 0 <= j < records@.len() ==> !stands_for(#[trigger] records@[j], target@),
{
    let t = chars_of(target);
    let mut i: usize = 0;
    while i < records.len()
        invariant
            i <= records@.len(),
            t@ == target@,
            forall|j: int| 0 <= j < i ==> !stands_for(#[trigger] records@[j], target@),
        decreases records.len() - i,
    {
        let r = &records[i];
        let by_path = match field(&r.text, "path") {
            Some(p) => eq_ignore_case(&chars_of(p.as_str()), &t),
            None => false,
        };
        let by_target = match field(&r.text, "target") {
            Some(p) => eq_ignore_case(&chars_of(p.as_str()), &t),
            None => false,
        };
        if by_path || by_target {
            return Some(i);
        }
        i += 1;
    }
    None
}

/// Where the `index`th arrival goes, before it is kept on its screen: 26px further right
/// and down for each one before it, so that files dropped together do not stack.
pub fn cascade(x: i32, y: i32, index: usize) -> (r: (i32, i32))
    requires
        index * 26 <= i32::MAX,
        x + index * 26 <= i32::MAX,
        y + index * 26 <= i32::MAX,
    ensures
        r.0 == x + index * 26,
        r.1 == y + index * 26,
{
    let step = (index as i32) * 26;
    (x + step, y + step)
}

// ------------------------------------------------------------------------------------
// The drop, start to end
// ------------------------------------------------------------------------------------

/// What a drop does with the dropped paths that still exist (`incoming`: each path, and
/// whether it is a directory), in order; refused when none does.
pub fn drop_plan(incoming: &Vec<(String, bool)>, root: &str, dest_dir: &str) -> (r: Result<Vec<DropStep>, String>)
    ensures
        incoming@.len() == 0 ==> (r matches Err(e) && e@ == "nothing that still exists was dropped"@),
        incoming@.len() > 0 ==> (r matches Ok(steps) && steps@.len() == incoming@.len()
            && forall|i: int| 0 <= i < steps@.len() ==> drop_step_view(#[trigger] steps@[i])
                == drop_step_spec(incoming@[i].0@, incoming@[i].1, root@, dest_dir@)),
{
    if incoming.len() == 0 {
        return Err(to_string("nothing that still exists was dropped"));
    }
    let mut steps: Vec<DropStep> = Vec::new();
    let mut i: usize = 0;
    while i < incoming.len()
        invariant
            i <= incoming@.len(),
            steps@.len() == i,
            forall|j: int| 0 <= j < i ==> drop_step_view(#[trigger] steps@[j])
                == drop_step_spec(incoming@[j].0@, incoming@[j].1, root@, dest_dir@),
        decreases incoming.len() - i,
    {
        let step = drop_step(incoming[i].0.as_str(), incoming[i].1, root, dest_dir);
        steps.push(step);
        i += 1;
    }
    Ok(steps)
}

/// What the drop answers once the disk work is done: the report when something landed
/// (into `dest_dir` when that is not the desktop's folder `root`), every refusal when
/// nothing did.
pub fn drop_result(landed: &[String], root: &str, dest_dir: &str, placed: u64, refused: &[String]) -> (r: Result<String, String>)
    ensures
        landed@.len() == 0 ==> (r matches Err(e) && e@ == join_spec(refused@, "; "@)),
        landed@.len() > 0 ==> (r matches Ok(s) && s@ == drop_report_spec(landed@.len(),
            if comps(dest_dir@) != comps(root@) { Some(dest_dir@) } else { None }, placed as nat, refused@)),
{
    if landed.len() == 0 {
        return Err(refusals(refused));
    }
    let into = if same_place(dest_dir, root) { None } else { Some(dest_dir) };
    Ok(drop_report(landed.len() as u64, into, placed, refused))
}

} // verus!
