//! Looking after the installed plugins: switching a kind on and off, and refusing to
//! take away what cannot go.
//!
//! The folders, the store and the windows are the caller's.

use vstd::prelude::*;
use crate::folders::WidgetRecord;
use crate::plugins::{builtin_index, find, strings};
use crate::text::{concat, dec_digits, push_dec, push_str, to_string, trim, trim_spec};

verus! {

broadcast use vstd::seq_lib::group_seq_properties;

/// Every kind but `id`.
pub open spec fn other_than(id: Seq<char>) -> spec_fn(Seq<char>) -> bool {
    |d: Seq<char>| d != id
}

/// The kinds switched off, with `id` switched on or off: switching on takes every
/// mention of it out; switching off adds it once.
pub open spec fn with_enabled(disabled: Seq<Seq<char>>, id: Seq<char>, enabled: bool) -> Seq<Seq<char>> {
    if enabled {
        disabled.filter(other_than(id))
    } else if disabled.contains(id) {
        disabled
    } else {
        disabled.push(id)
    }
}

pub fn set_enabled(disabled: &mut Vec<String>, id: &str, enabled: bool)
    ensures
        strings(final(disabled)@) == with_enabled(strings(old(disabled)@), id@, enabled),
{
    let ghost start = strings(disabled@);
    if enabled {
        let mut kept: Vec<String> = Vec::new();
        let mut i: usize = 0;
        while i < disabled.len()
            invariant
                i <= disabled@.len(),
                start == strings(disabled@),
                strings(kept@) == start.take(i as int).filter(other_than(id@)),
            decreases disabled.len() - i,
        {
            proof {
                reveal(Seq::filter);
                assert(start.take(i + 1).drop_last() =~= start.take(i as int));
            }
            if disabled[i] != to_string(id) {
                let ghost before = strings(kept@);
                kept.push(disabled[i].clone());
                assert(strings(kept@) =~= before.push(start[i as int]));
            }
            i += 1;
        }
        assert(start.take(start.len() as int) =~= start);
        *disabled = kept;
    } else {
        let mut present = false;
        let mut i: usize = 0;
        while i < disabled.len()
            invariant
                i <= disabled@.len(),
                start == strings(disabled@),
                present == start.take(i as int).contains(id@),
            decreases disabled.len() - i,
        {
            assert(start.take(i + 1) =~= start.take(i as int).push(start[i as int]));
            if disabled[i] == to_string(id) {
                present = true;
            }
            i += 1;
        }
        assert(start.take(start.len() as int) =~= start);
        if !present {
            disabled.push(to_string(id));
            assert(strings(disabled@) =~= start.push(id@));
        }
    }
}

/// Switching a kind on leaves it nowhere in the list; switching it off leaves it there
/// once, and twice is the same as once.
pub proof fn switching_is_settled(disabled: Seq<Seq<char>>, id: Seq<char>)
    ensures
        !with_enabled(disabled, id, true).contains(id),
        with_enabled(disabled, id, false).contains(id),
        with_enabled(with_enabled(disabled, id, false), id, false) == with_enabled(disabled, id, false),
{
    let on = with_enabled(disabled, id, true);
    if on.contains(id) {
        let k = choose|k: int| 0 <= k < on.len() && on[k] == id;
        disabled.lemma_filter_pred(other_than(id), k);
        assert(other_than(id)(on[k]));
    }
    let off = with_enabled(disabled, id, false);
    if !disabled.contains(id) {
        assert(off[disabled.len() as int] == id);
    }
}

/// The floaties of a kind, by id, in the store's order.
pub open spec fn widgets_of(records: Seq<WidgetRecord>, kind: Seq<char>) -> Seq<Seq<char>>
    decreases records.len(),
{
    if records.len() == 0 {
        seq![]
    } else {
        let prev = widgets_of(records.drop_last(), kind);
        if records.last().kind@ == kind { prev.push(records.last().id@) } else { prev }
    }
}

pub fn widgets_of_kind(records: &Vec<WidgetRecord>, kind: &str) -> (r: Vec<String>)
    ensures
        strings(r@) == widgets_of(records@, kind@),
{
    let k = to_string(kind);
    let mut out: Vec<String> = Vec::new();
    let mut i: usize = 0;
    while i < records.len()
        invariant
            i <= records@.len(),
            k@ == kind@,
            strings(out@) == widgets_of(records@.take(i as int), kind@),
        decreases records.len() - i,
    {
        proof {
            assert(records@.take(i + 1).drop_last() =~= records@.take(i as int));
        }
        if records[i].kind == k {
            let ghost before = strings(out@);
            out.push(records[i].id.clone());
            assert(strings(out@) =~= before.push(records@[i as int].id@));
        }
        i += 1;
    }
    assert(records@.take(records@.len() as int) =~= records@);
    out
}

/// Why removing plugin `id` is refused, if it is: floaty's own widgets cannot be
/// removed, and a kind with floaties on the desktop goes only with them.
pub open spec fn uninstall_refusal_spec(id: Seq<char>, widgets: nat, remove_widgets: bool) -> Option<Seq<char>> {
    if builtin_index(id) is Some {
        Some(id + " is one of floaty's own widgets \u{2014} it cannot be removed"@)
    } else if widgets > 0 && !remove_widgets {
        Some(dec_digits(widgets) + " floatie(s) of that kind are on the desktop \u{2014} remove them with it, or none"@)
    } else {
        None
    }
}

pub fn uninstall_refusal(id: &str, widgets: usize, remove_widgets: bool) -> (r: Option<String>)
    ensures
        match r {
            Some(e) => uninstall_refusal_spec(id@, widgets as nat, remove_widgets) == Some(e@),
            None => uninstall_refusal_spec(id@, widgets as nat, remove_widgets) is None,
        },
{
    if find(id).is_some() {
        return Some(concat(id, " is one of floaty's own widgets \u{2014} it cannot be removed"));
    }
    if widgets > 0 && !remove_widgets {
        let mut e = String::new();
        proof {
            reveal_strlit("");
        }
        push_dec(&mut e, widgets as u64);
        push_str(&mut e, " floatie(s) of that kind are on the desktop \u{2014} remove them with it, or none");
        return Some(e);
    }
    None
}

/// A launcher needs a path.
pub fn launcher_path_refusal(path: &str) -> (r: Option<String>)
    ensures
        r is Some <==> trim_spec(path@).len() == 0,
        r matches Some(e) ==> e@ == "empty path"@,
{
    if trim(path).len() == 0 {
        Some(to_string("empty path"))
    } else {
        None
    }
}

} // verus!
