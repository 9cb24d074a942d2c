//! What the desktop starts with, from the records the store loaded.
//!
//! New floaties count on from the highest number any id ends in, so an id is never given
//! out twice; and a record whose kind no longer matches what its target is (a shortcut
//! saved as a file, or the other way round) is put right.

use vstd::prelude::*;
use crate::desktop::{kind_for_path, kind_for_path_spec};
use crate::folders::{field, field_spec, WidgetRecord};
use crate::plugins::{desktop_facts, is_path_kind, InstalledPlugin};
use crate::text::{chars_of, parse_unsigned, parse_unsigned_exec, to_string};

verus! {

broadcast use vstd::seq_lib::group_seq_properties;

/// The text after an id's last `-`, or the whole id when it has none.
pub open spec fn after_last_dash(id: Seq<char>) -> Seq<char> {
    if exists|i: int| 0 <= i < id.len() && id[i] == '-' {
        let p = choose|i: int| 0 <= i < id.len() && id[i] == '-' && forall|j: int| i < j < id.len() ==> id[j] != '-';
        id.skip(p + 1)
    } else {
        id
    }
}

/// The number an id ends in, when what follows its last `-` parses as a `u64`.
pub open spec fn id_number_spec(id: Seq<char>) -> Option<nat> {
    parse_unsigned(after_last_dash(id), u64::MAX as nat)
}

pub fn id_number(id: &str) -> (r: Option<u64>)
    ensures
        match r {
            Some(n) => id_number_spec(id@) == Some(n as nat),
            None => id_number_spec(id@) is None,
        },
{
    let v = chars_of(id);
    let mut k: usize = v.len();
    while k > 0 && v[k - 1] != '-'
        invariant
            k <= v@.len(),
            v@ == id@,
            forall|j: int| k <= j < v@.len() ==> v@[j] != '-',
        decreases k,
    {
        k -= 1;
    }
    let tail = vstd::slice::slice_subrange(v.as_slice(), k, v.len());
    proof {
        if k > 0 {
            let p = choose|i: int| 0 <= i < id@.len() && id@[i] == '-' && forall|j: int| i < j < id@.len() ==> id@[j] != '-';
            assert(id@[k - 1] == '-');
            assert(p == k - 1) by {
                if p < k - 1 {
                    assert(id@[k - 1] != '-');
                } else if p > k - 1 {
                    assert(id@[p] != '-');
                }
            }
        } else {
            assert(!exists|i: int| 0 <= i < id@.len() && id@[i] == '-');
            assert(id@.skip(0) =~= id@);
        }
        assert(tail@ =~= after_last_dash(id@));
    }
    match parse_unsigned_exec(tail, u64::MAX) {
        Some(n) => Some(n),
        None => None,
    }
}

/// The highest number the first `n` ids end in; 0 when none has one.
pub open spec fn max_id(records: Seq<WidgetRecord>, n: int) -> nat
    decreases n,
{
    if n <= 0 {
        0
    } else {
        let m = max_id(records, n - 1);
        match id_number_spec(records[n - 1].id@) {
            Some(k) => if k > m { k } else { m },
            None => m,
        }
    }
}

/// The kind a record should have: for a kind that points at one path and a record with
/// a target, what that target is (a launchable app or a file); otherwise the kind it has.
pub open spec fn settled_kind(installed: Seq<InstalledPlugin>, r: WidgetRecord) -> Seq<char> {
    let single = match desktop_facts(installed, r.kind@) {
        Some((_, group)) => !group,
        None => false,
    };
    match field_spec(r.text@, "target"@) {
        Some(t) => if single { kind_for_path_spec(t, false) } else { r.kind@ },
        None => r.kind@,
    }
}

/// How many of the first `n` records change kind.
pub open spec fn reclassified_count(installed: Seq<InstalledPlugin>, records: Seq<WidgetRecord>, n: int) -> nat
    decreases n,
{
    if n <= 0 {
        0
    } else {
        reclassified_count(installed, records, n - 1)
            + if settled_kind(installed, records[n - 1]) != records[n - 1].kind@ { 1nat } else { 0nat }
    }
}

/// Settle the loaded records: each takes the kind its target calls for, everything else
/// about it unchanged. Returns the number new ids count on from, and how many records
/// changed kind.
pub fn settle_records(installed: &[InstalledPlugin], records: &mut Vec<WidgetRecord>) -> (r: (u64, usize))
    ensures
        final(records)@.len() == old(records)@.len(),
        forall|i: int| 0 <= i < old(records)@.len() ==> {
            let (a, b) = (#[trigger] final(records)@[i], old(records)@[i]);
            &&& a.kind@ == settled_kind(installed@, b)
            &&& a.id == b.id && a.x == b.x && a.y == b.y && a.text == b.text && a.items == b.items
        },
        r.0 == max_id(old(records)@, old(records)@.len() as int),
        r.1 == reclassified_count(installed@, old(records)@, old(records)@.len() as int),
{
    let ghost start = records@;
    let mut max_n: u64 = 0;
    let mut changed: usize = 0;
    let mut i: usize = 0;
    while i < records.len()
        invariant
            i <= records@.len() == start.len(),
            max_n == max_id(start, i as int),
            changed == reclassified_count(installed@, start, i as int),
            changed <= i,
            forall|j: int| i <= j < start.len() ==> records@[j] == start[j],
            forall|j: int| 0 <= j < i ==> {
                let (a, b) = (#[trigger] records@[j], start[j]);
                &&& a.kind@ == settled_kind(installed@, b)
                &&& a.id == b.id && a.x == b.x && a.y == b.y && a.text == b.text && a.items == b.items
            },
        decreases records.len() - i,
    {
        match id_number(records[i].id.as_str()) {
            Some(n) => {
                if n > max_n {
                    max_n = n;
                }
            },
            None => {},
        }
        let ghost before = records@;
        let mut rec = records.remove(i);
        assert(rec == start[i as int]);
        if is_path_kind(installed, rec.kind.as_str()) {
            match field(&rec.text, "target") {
                Some(t) => {
                    let want = kind_for_path(t.as_str(), false);
                    if !crate::text::chars_eq(&chars_of(want), &chars_of(rec.kind.as_str())) {
                        rec.kind = to_string(want);
                        changed += 1;
                    } else {
                        assert(rec.kind@ == settled_kind(installed@, start[i as int]));
                    }
                },
                None => {},
            }
        }
        records.insert(i, rec);
        proof {
            assert(records@ == before.remove(i as int).insert(i as int, rec));
            assert forall|j: int| i + 1 <= j < start.len() implies records@[j] == start[j] by {
                assert(records@[j] == before[j]);
            }
            assert forall|j: int| 0 <= j < i + 1 implies {
                let (a, b) = (#[trigger] records@[j], start[j]);
                &&& a.kind@ == settled_kind(installed@, b)
                &&& a.id == b.id && a.x == b.x && a.y == b.y && a.text == b.text && a.items == b.items
            } by {
                if j < i {
                    assert(records@[j] == before[j]);
                }
            }
        }
        i += 1;
    }
    (max_n, changed)
}

/// No loaded id ends in a number past the counter new ids count on from, so the ids given
/// out after it (one past it, then on) are none of the loaded ones.
pub proof fn the_counter_is_past_every_loaded_id(records: Seq<WidgetRecord>)
    ensures
        forall|i: int| 0 <= i < records.len() ==> (id_number_spec((#[trigger] records[i]).id@) matches Some(k) ==> k <= max_id(records, records.len() as int)),
{
    lemma_max_id(records, records.len() as int);
}

proof fn lemma_max_id(records: Seq<WidgetRecord>, n: int)
    requires
        0 <= n <= records.len(),
    ensures
        forall|i: int| 0 <= i < n ==> (id_number_spec((#[trigger] records[i]).id@) matches Some(k) ==> k <= max_id(records, n)),
    decreases n,
{
    if n > 0 {
        lemma_max_id(records, n - 1);
    }
}

} // verus!
