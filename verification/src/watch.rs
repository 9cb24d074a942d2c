//! Following the root on disk: what one read of directory changes says.
//!
//! The watch filters on names only, so a read holds a chain of notification entries:
//! three little-endian `u32`s (offset of the next entry, action, name length in bytes)
//! and then the name in UTF-16. Renames arrive as an OLD entry and a NEW entry, adjacent
//! but possibly split across two reads, so the OLD half waits in `pending` until its NEW
//! half comes. Reading the directory and waiting on it is the caller's.

use vstd::prelude::*;
use crate::shell::{le_u32_at, read_le_u32, utf16_units, utf16_units_of};
use crate::text::{from_utf16_lossy, utf16_lossy};

verus! {

broadcast use vstd::seq_lib::group_seq_properties;

/// An item was created.
pub const FILE_ACTION_ADDED: u32 = 1;
/// An item was deleted.
pub const FILE_ACTION_REMOVED: u32 = 2;
/// An item changed; with a names-only filter this carries nothing worth a reconcile.
pub const FILE_ACTION_MODIFIED: u32 = 3;
/// The old half of a rename.
pub const FILE_ACTION_RENAMED_OLD_NAME: u32 = 4;
/// The new half of a rename.
pub const FILE_ACTION_RENAMED_NEW_NAME: u32 = 5;

/// The bytes before an entry's name.
pub const HEADER: usize = 12;

/// One notification entry at `offset`: the offset of the next entry, the action, and the
/// name, its length cut at `end` and an odd last byte left out.
pub open spec fn entry_spec(b: Seq<u8>, offset: int, end: int) -> Option<(int, u32, Seq<char>)> {
    if offset + 12 > end {
        None
    } else {
        let name_start = offset + 12;
        let want = name_start + le_u32_at(b, offset + 8);
        let name_end = if want < end { want } else { end };
        Some((
            le_u32_at(b, offset),
            le_u32_at(b, offset + 4) as u32,
            utf16_lossy(utf16_units(b.subrange(name_start, name_end))),
        ))
    }
}

/// Read one notification entry at `offset`, or nothing when no whole header fits before
/// `end`.
pub fn parse_notification_entry(buffer: &[u8], offset: usize, end: usize) -> (r: Option<(usize, u32, String)>)
    requires
        end <= buffer.len(),
    ensures
        r matches Some((next, action, name)) ==> entry_spec(buffer@, offset as int, end as int)
            == Some((next as int, action, name@)),
        r is None <==> entry_spec(buffer@, offset as int, end as int) is None,
{
    if end < HEADER || offset > end - HEADER {
        return None;
    }
    let next = read_le_u32(buffer, offset) as usize;
    let action = read_le_u32(buffer, offset + 4);
    let name_bytes = read_le_u32(buffer, offset + 8) as usize;
    let name_start = offset + HEADER;
    let name_end = if name_bytes < end - name_start { name_start + name_bytes } else { end };
    let units = utf16_units_of(buffer, name_start, name_end);
    let name = from_utf16_lossy(units.as_slice());
    Some((next, action, name))
}

/// The entries of a read, from `offset` on, as (action, name), in order. The chain ends
/// at an entry whose next offset is zero or points past `end`.
pub open spec fn entries_from(b: Seq<u8>, offset: int, end: int) -> Seq<(u32, Seq<char>)>
    decreases (if offset <= end { end - offset } else { 0 }),
{
    match entry_spec(b, offset, end) {
        None => seq![],
        Some((next, action, name)) => {
            let rest = if next == 0 || offset + next > end {
                seq![]
            } else {
                entries_from(b, offset + next, end)
            };
            seq![(action, name)] + rest
        },
    }
}

/// What a run of entries amounts to: whether something was created or deleted, the
/// renames paired old to new, and the OLD half still waiting for its NEW half.
pub struct BatchState {
    pub touched: bool,
    pub renames: Seq<(Seq<char>, Seq<char>)>,
    pub pending: Option<Seq<char>>,
}

/// One entry applied.
pub open spec fn step(s: BatchState, action: u32, name: Seq<char>) -> BatchState {
    if action == FILE_ACTION_RENAMED_OLD_NAME {
        BatchState { pending: Some(name), ..s }
    } else if action == FILE_ACTION_RENAMED_NEW_NAME {
        match s.pending {
            Some(old) => BatchState { renames: s.renames.push((old, name)), pending: None, ..s },
            None => BatchState { touched: true, ..s },
        }
    } else if action == FILE_ACTION_ADDED || action == FILE_ACTION_REMOVED {
        BatchState { touched: true, pending: None, ..s }
    } else if action == FILE_ACTION_MODIFIED {
        BatchState { pending: None, ..s }
    } else {
        s
    }
}

/// The entries applied in order.
pub open spec fn fold(s: BatchState, es: Seq<(u32, Seq<char>)>) -> BatchState
    decreases es.len(),
{
    if es.len() == 0 {
        s
    } else {
        step(fold(s, es.drop_last()), es.last().0, es.last().1)
    }
}

/// What one read said.
pub struct Batch {
    /// Something was created or deleted: worth a reconcile.
    pub touched: bool,
    /// The queue held more than the buffer could: names are missing, so the reconcile
    /// it triggers has to be a full one.
    pub overflow: bool,
    /// Renames, paired old to new, the names relative to the watched directory.
    pub renames: Vec<(String, String)>,
}

pub open spec fn renames_view(r: Seq<(String, String)>) -> Seq<(Seq<char>, Seq<char>)> {
    Seq::new(r.len(), |i: int| (r[i].0@, r[i].1@))
}

pub open spec fn pending_view(p: Option<String>) -> Option<Seq<char>> {
    match p {
        Some(s) => Some(s@),
        None => None,
    }
}

proof fn lemma_entries_split(b: Seq<u8>, offset: int, end: int)
    requires
        entry_spec(b, offset, end) is Some,
    ensures
        ({
            let (next, action, name) = entry_spec(b, offset, end)->0;
            entries_from(b, offset, end) == seq![(action, name)] + (if next == 0 || offset + next > end {
                Seq::<(u32, Seq<char>)>::empty()
            } else {
                entries_from(b, offset + next, end)
            })
        }),
{
}

/// Walk the chain of one read.
///
/// A read of zero bytes means the queue overflowed: anything may have changed, so the
/// batch asks for a reconcile and says it is a full one. Otherwise the entries are
/// applied in order, starting from the OLD half a previous read left in `pending`.
pub fn parse_batch(buffer: &[u8], bytes: u32, pending: &mut Option<String>) -> (r: Batch)
    ensures
        ({
            let end = if bytes < buffer.len() { bytes as int } else { buffer.len() as int };
            if end == 0 {
                &&& r.touched && r.overflow && r.renames@.len() == 0
                &&& *final(pending) == *old(pending)
            } else {
                let s = fold(
                    BatchState { touched: false, renames: seq![], pending: pending_view(*old(pending)) },
                    entries_from(buffer@, 0, end),
                );
                &&& !r.overflow
                &&& r.touched == s.touched
                &&& renames_view(r.renames@) == s.renames
                &&& pending_view(*final(pending)) == s.pending
            }
        }),
{
    let end: usize = if (bytes as usize) < buffer.len() { bytes as usize } else { buffer.len() };
    if end == 0 {
        return Batch { touched: true, overflow: true, renames: Vec::new() };
    }
    let ghost init = BatchState { touched: false, renames: seq![], pending: pending_view(*pending) };
    let mut touched = false;
    let mut renames: Vec<(String, String)> = Vec::new();
    let mut offset: usize = 0;
    let ghost mut done: Seq<(u32, Seq<char>)> = seq![];
    let ghost mut tail_empty = false;
    loop
        invariant_except_break
            offset <= end <= buffer.len(),
            !tail_empty,
            entries_from(buffer@, 0, end as int) == done + entries_from(buffer@, offset as int, end as int),
        invariant
            end <= buffer.len(),
            end == (if bytes < buffer.len() { bytes as int } else { buffer.len() as int }),
            ({
                let s = fold(init, done);
                &&& touched == s.touched
                &&& renames_view(renames@) == s.renames
                &&& pending_view(*pending) == s.pending
            }),
        ensures
            entries_from(buffer@, 0, end as int) == done,
        decreases end - offset,
    {
        let entry = parse_notification_entry(buffer, offset, end);
        match entry {
            None => {
                proof {
                    assert(done + entries_from(buffer@, offset as int, end as int) =~= done);
                }
                break;
            },
            Some((next, action, name)) => {
                proof {
                    lemma_entries_split(buffer@, offset as int, end as int);
                }
                let ghost prev = fold(init, done);
                if action == FILE_ACTION_RENAMED_OLD_NAME {
                    *pending = Some(name);
                } else if action == FILE_ACTION_RENAMED_NEW_NAME {
                    match pending.take() {
                        Some(old_name) => {
                            renames.push((old_name, name));
                        },
                        None => {
                            touched = true;
                        },
                    }
                } else if action == FILE_ACTION_ADDED || action == FILE_ACTION_REMOVED {
                    *pending = None;
                    touched = true;
                } else if action == FILE_ACTION_MODIFIED {
                    *pending = None;
                }
                proof {
                    let e = (action, name@);
                    let nd = done.push(e);
                    assert(nd.drop_last() =~= done);
                    assert(renames_view(renames@) =~= step(prev, action, name@).renames);
                    done = nd;
                }
                if next == 0 || next > end - offset {
                    proof {
                        assert(entries_from(buffer@, 0, end as int) =~= done);
                    }
                    break;
                }
                proof {
                    assert(entries_from(buffer@, 0, end as int) =~= done + entries_from(buffer@, offset + next, end as int));
                }
                offset = offset + next;
            },
        }
    }
    Batch { touched, overflow: false, renames }
}

/// Splitting a chain of entries between two reads changes nothing: applying the second
/// part to what the first left, pending OLD half included, is applying the whole.
pub proof fn split_reads_agree(s: BatchState, first: Seq<(u32, Seq<char>)>, second: Seq<(u32, Seq<char>)>)
    ensures
        fold(fold(s, first), second) == fold(s, first + second),
    decreases second.len(),
{
    if second.len() == 0 {
        assert(first + second =~= first);
    } else {
        split_reads_agree(s, first, second.drop_last());
        assert((first + second).drop_last() =~= first + second.drop_last());
    }
}

/// An OLD entry followed by its NEW entry is one rename, from the old name to the new,
/// whatever was pending before.
pub proof fn a_rename_is_paired(s: BatchState, old_name: Seq<char>, new_name: Seq<char>)
    ensures
        fold(s, seq![(FILE_ACTION_RENAMED_OLD_NAME, old_name), (FILE_ACTION_RENAMED_NEW_NAME, new_name)])
            == (BatchState { renames: s.renames.push((old_name, new_name)), pending: None, ..s }),
{
    let es = seq![(FILE_ACTION_RENAMED_OLD_NAME, old_name), (FILE_ACTION_RENAMED_NEW_NAME, new_name)];
    assert(es.drop_last() =~= seq![(FILE_ACTION_RENAMED_OLD_NAME, old_name)]);
    assert(es.drop_last().drop_last() =~= Seq::<(u32, Seq<char>)>::empty());
    reveal_with_fuel(fold, 3);
}

/// Nothing a later entry says takes back a reconcile once one is asked for.
pub proof fn a_touch_is_never_undone(s: BatchState, es: Seq<(u32, Seq<char>)>)
    requires
        s.touched,
    ensures
        fold(s, es).touched,
    decreases es.len(),
{
    if es.len() > 0 {
        a_touch_is_never_undone(s, es.drop_last());
    }
}

/// A read that reports a file created or deleted anywhere in it asks for a reconcile,
/// whatever came before and after that entry.
pub proof fn a_creation_or_deletion_asks_for_a_reconcile(s: BatchState, es: Seq<(u32, Seq<char>)>, i: int)
    requires
        0 <= i < es.len(),
        es[i].0 == FILE_ACTION_ADDED || es[i].0 == FILE_ACTION_REMOVED,
    ensures
        fold(s, es).touched,
{
    let head = es.take(i + 1);
    let tail = es.skip(i + 1);
    assert(head.drop_last() =~= es.take(i));
    assert(head.last() == es[i]);
    assert(fold(s, head).touched);
    a_touch_is_never_undone(fold(s, head), tail);
    split_reads_agree(s, head, tail);
    assert(head + tail =~= es);
}

/// A deletion on its own is a reconcile and nothing more: no rename, nothing pending.
pub proof fn a_deletion_alone_is_a_reconcile(s: BatchState, name: Seq<char>)
    ensures
        fold(s, seq![(FILE_ACTION_REMOVED, name)])
            == (BatchState { touched: true, renames: s.renames, pending: None }),
{
    let es = seq![(FILE_ACTION_REMOVED, name)];
    assert(es.drop_last() =~= Seq::<(u32, Seq<char>)>::empty());
    reveal_with_fuel(fold, 2);
}

} // verus!
