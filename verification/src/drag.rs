//! Undoing a drag: where the dragged floatie started, and which moves are worth a step.
//!
//! A drag writes the record's position on every move, so by the time a drop happens the
//! "before" has been overwritten many times over. Undo has to put the icon back on the
//! spot the user took it from, so the first move of a drag is where it is remembered,
//! once per drag, and spent when the drag is over.

use vstd::prelude::*;
use crate::text::{to_string, trim, trim_spec, string_of};

verus! {

/// Where the drag in flight started: the dragged record's id and its position then.
pub struct DragOrigin {
    slot: Option<(String, i32, i32)>,
}

pub type OriginView = Option<(Seq<char>, i32, i32)>;

/// Remembering `position` for `id`: a drag remembers its first move only, and a record
/// that is not there leaves nothing to remember.
pub open spec fn after_remember(v: OriginView, id: Seq<char>, position: Option<(i32, i32)>) -> OriginView {
    match v {
        Some((o, _, _)) if o == id => v,
        _ => match position {
            Some((x, y)) => Some((id, x, y)),
            None => v,
        },
    }
}

/// The origin of the drag in flight, when it is `id`'s.
pub open spec fn origin_of(v: OriginView, id: Seq<char>) -> Option<(i32, i32)> {
    match v {
        Some((o, x, y)) if o == id => Some((x, y)),
        _ => None,
    }
}

/// The drag of `id` is over: its origin is spent. Another id's drag is left alone.
pub open spec fn after_forget(v: OriginView, id: Seq<char>) -> OriginView {
    match v {
        Some((o, _, _)) if o == id => None,
        _ => v,
    }
}

impl View for DragOrigin {
    type V = OriginView;

    closed spec fn view(&self) -> OriginView {
        match self.slot {
            Some((id, x, y)) => Some((id@, x, y)),
            None => None,
        }
    }
}

impl DragOrigin {
    /// No drag in flight.
    pub fn new() -> (r: Self)
        ensures
            r@ is None,
    {
        DragOrigin { slot: None }
    }

    /// Remember where `id` was, once per drag. `position` is the record's position
    /// before this move, or nothing when there is no such record.
    pub fn remember_drag_origin(&mut self, id: &str, position: Option<(i32, i32)>)
        ensures
            final(self)@ == after_remember(old(self)@, id@, position),
    {
        let already = match &self.slot {
            Some((o, _, _)) => crate::text::chars_eq(&crate::text::chars_of(o.as_str()), &crate::text::chars_of(id)),
            None => false,
        };
        if already {
            return;
        }
        if let Some((x, y)) = position {
            self.slot = Some((to_string(id), x, y));
        }
    }

    /// Where the drag in flight started, for this id.
    pub fn drag_origin(&self, id: &str) -> (r: Option<(i32, i32)>)
        ensures
            r == origin_of(self@, id@),
    {
        match &self.slot {
            Some((o, x, y)) => {
                if crate::text::chars_eq(&crate::text::chars_of(o.as_str()), &crate::text::chars_of(id)) {
                    Some((*x, *y))
                } else {
                    None
                }
            },
            None => None,
        }
    }

    /// A drag is over (dropped, merged, or abandoned): the remembered place is spent.
    pub fn forget_drag_origin(&mut self, id: &str)
        ensures
            final(self)@ == after_forget(old(self)@, id@),
    {
        let mine = match &self.slot {
            Some((o, _, _)) => crate::text::chars_eq(&crate::text::chars_of(o.as_str()), &crate::text::chars_of(id)),
            None => false,
        };
        if mine {
            self.slot = None;
        }
    }
}

/// Does the remembered origin belong to this record? Only the one the drag moved: a
/// merge checkpoints the dragged item and the folder it went into, and only the first
/// of them moved.
pub fn origin_applies(dragged: &str, id: &str) -> (r: bool)
    ensures
        r == (dragged@ == id@),
{
    crate::text::chars_eq(&crate::text::chars_of(dragged), &crate::text::chars_of(id))
}

/// Is a drop worth an undo step? Only a drag with a remembered start that ended on a
/// record somewhere else: a drop where it started changed nothing.
pub fn move_is_undoable(origin: Option<(i32, i32)>, now: Option<(i32, i32)>) -> (r: bool)
    ensures
        r == (origin is Some && now is Some && now != origin),
{
    match (origin, now) {
        (Some((ox, oy)), Some((nx, ny))) => !(ox == nx && oy == ny),
        _ => false,
    }
}

/// The name of a gesture's undo step: what the page said, or "move" when it said nothing.
pub fn gesture_label(label: &str) -> (r: String)
    ensures
        trim_spec(label@).len() == 0 ==> r@ == "move"@,
        trim_spec(label@).len() > 0 ==> r@ == trim_spec(label@),
{
    let t = trim(label);
    if t.len() == 0 {
        to_string("move")
    } else {
        string_of(&t)
    }
}

// ------------------------------------------------------------------------------------
// Laws
// ------------------------------------------------------------------------------------

/// The first move of a drag is where it started: remembering again for the same drag
/// keeps the first position.
pub proof fn the_first_move_is_the_origin(v: OriginView, id: Seq<char>, first: (i32, i32), later: Option<(i32, i32)>)
    requires
        origin_of(v, id) is None,
    ensures
        origin_of(after_remember(after_remember(v, id, Some(first)), id, later), id) == Some(first),
{
}

/// Once a drag is over its origin is spent, and another record's drag ending does not
/// spend it.
pub proof fn a_finished_drag_has_no_origin(v: OriginView, id: Seq<char>, other: Seq<char>)
    ensures
        origin_of(after_forget(v, id), id) is None,
        other != id ==> origin_of(after_forget(v, other), id) == origin_of(v, id),
{
}

} // verus!
