//! Moving floaties with their files.
//!
//! An external rename arrives as a pair (old path, new path). Applied here, rather than
//! left to the reconcile (which would take the old floatie away and add a new one), it is
//! what keeps the tile where the user put it, with its icon: the desktop follows the file
//! instead of shuffling around it.

use vstd::prelude::*;
use crate::folders::{
    field, field_spec, pairs_of, record_path, record_path_spec, set_field, set_pair, WidgetRecord,
};
use crate::paths::{file_name, file_name_spec};
use crate::plugins::{desktop_facts, path_key, InstalledPlugin};
use crate::text::{ascii_lower_seq, chars_of, eq_ignore_case, string_of};

verus! {

/// Does record `r` stand for the path `from` (compared without ASCII case)?
pub open spec fn follows(installed: Seq<InstalledPlugin>, r: WidgetRecord, from: Seq<char>) -> bool {
    record_path_spec(installed, r.kind@, r.text@) matches Some(p) && ascii_lower_seq(p) == ascii_lower_seq(from)
}

/// The entries of a record that followed its file to `to`: the entry its kind keeps the
/// path in says `to`, and a name, when the record has one, becomes the new file name.
pub open spec fn renamed_text(installed: Seq<InstalledPlugin>, r: WidgetRecord, to: Seq<char>) -> Seq<(Seq<char>, Seq<char>)> {
    let key = match desktop_facts(installed, r.kind@) {
        Some((k, _)) => k,
        None => seq![],
    };
    let label = match file_name_spec(to) {
        Some(n) => n,
        None => seq![],
    };
    let moved = set_pair(pairs_of(r.text@), key, to);
    if label.len() > 0 && field_spec(r.text@, "name"@) is Some {
        set_pair(moved, "name"@, label)
    } else {
        moved
    }
}

/// Apply one rename: the first record that stands for `from` follows its file to `to`,
/// keeping its id, kind, place and items. Says which record moved, if any.
pub fn apply_rename(installed: &[InstalledPlugin], records: &mut Vec<WidgetRecord>, from: &str, to: &str) -> (r: Option<usize>)
    ensures
        final(records)@.len() == old(records)@.len(),
        r is None ==> final(records)@ == old(records)@
            && forall|j: int| 0 <= j < old(records)@.len() ==> !follows(installed@, #[trigger] old(records)@[j], from@),
        r matches Some(i) ==> {
            &&& i < old(records)@.len()
            &&& follows(installed@, old(records)@[i as int], from@)
            &&& forall|j: int| 0 <= j < i ==> !follows(installed@, #[trigger] old(records)@[j], from@)
            &&& forall|j: int| 0 <= j < old(records)@.len() && j != i ==> #[trigger] final(records)@[j] == old(records)@[j]
            &&& ({
                let (a, b) = (final(records)@[i as int], old(records)@[i as int]);
                &&& a.id == b.id && a.kind == b.kind && a.x == b.x && a.y == b.y && a.items == b.items
                &&& pairs_of(a.text@) == renamed_text(installed@, b, to@)
            })
        },
{
    let lower_from = chars_of(from);
    let mut i: usize = 0;
    while i < records.len()
        invariant
            i <= records@.len(),
            records@ == old(records)@,
            lower_from@ == from@,
            forall|j: int| 0 <= j < i ==> !follows(installed@, #[trigger] old(records)@[j], from@),
        decreases records.len() - i,
    {
        let hit = match record_path(installed, &records[i]) {
            Some(p) => eq_ignore_case(&chars_of(p.as_str()), &lower_from),
            None => false,
        };
        if hit {
            let ghost before = records@;
            let mut rec = records.remove(i);
            assert(rec == before[i as int]);
            let key = match path_key(installed, rec.kind.as_str()) {
                Some(k) => k,
                None => String::new(),
            };
            let label = match file_name(to) {
                Some(n) => n,
                None => Vec::new(),
            };
            let has_name = field(&rec.text, "name").is_some();
            set_field(&mut rec.text, key.as_str(), to);
            if label.len() > 0 && has_name {
                set_field(&mut rec.text, "name", string_of(&label).as_str());
            }
            assert(pairs_of(rec.text@) == renamed_text(installed@, before[i as int], to@));
            records.insert(i, rec);
            proof {
                assert(records@ == before.remove(i as int).insert(i as int, rec));
                assert forall|j: int| 0 <= j < before.len() && j != i implies #[trigger] records@[j] == before[j] by {}
            }
            return Some(i);
        }
        i += 1;
    }
    None
}

/// The value of the first pair under `key`.
#[verifier::opaque]
pub open spec fn first_value(pairs: Seq<(Seq<char>, Seq<char>)>, key: Seq<char>) -> Option<Seq<char>> {
    if exists|i: int| 0 <= i < pairs.len() && (#[trigger] pairs[i]).0 == key {
        Some(pairs[choose|i: int| 0 <= i < pairs.len() && (#[trigger] pairs[i]).0 == key
            && forall|j: int| 0 <= j < i ==> pairs[j].0 != key].1)
    } else {
        None
    }
}

proof fn lemma_first_value_at(pairs: Seq<(Seq<char>, Seq<char>)>, key: Seq<char>, i: int)
    requires
        0 <= i < pairs.len(),
        pairs[i].0 == key,
        forall|j: int| 0 <= j < i ==> pairs[j].0 != key,
    ensures
        first_value(pairs, key) == Some(pairs[i].1),
{
    reveal(first_value);
    let w = choose|w: int| 0 <= w < pairs.len() && (#[trigger] pairs[w]).0 == key
        && forall|j: int| 0 <= j < w ==> pairs[j].0 != key;
    assert(w == i) by {
        if w < i {
            assert(pairs[w].0 != key);
        } else if w > i {
            assert(pairs[i].0 != key);
        }
    }
}

/// Among the pairs under `key`, there is a first.
proof fn lemma_first_pair(pairs: Seq<(Seq<char>, Seq<char>)>, key: Seq<char>, n: int)
    requires
        0 <= n <= pairs.len(),
        exists|i: int| 0 <= i < n && (#[trigger] pairs[i]).0 == key,
    ensures
        exists|i: int| 0 <= i < pairs.len() && (#[trigger] pairs[i]).0 == key
            && forall|j: int| 0 <= j < i ==> pairs[j].0 != key,
    decreases n,
{
    if exists|i: int| 0 <= i < n - 1 && (#[trigger] pairs[i]).0 == key {
        lemma_first_pair(pairs, key, n - 1);
    } else {
        assert(pairs[n - 1].0 == key);
        assert(forall|j: int| 0 <= j < n - 1 ==> pairs[j].0 != key);
    }
}

/// Among the entries under `key`, there is a first.
proof fn lemma_first_entry(text: Seq<(String, String)>, key: Seq<char>, n: int)
    requires
        0 <= n <= text.len(),
        exists|i: int| 0 <= i < n && #[trigger] text[i].0@ == key,
    ensures
        exists|i: int| 0 <= i < text.len() && #[trigger] text[i].0@ == key
            && forall|j: int| 0 <= j < i ==> text[j].0@ != key,
    decreases n,
{
    if exists|i: int| 0 <= i < n - 1 && #[trigger] text[i].0@ == key {
        lemma_first_entry(text, key, n - 1);
    } else {
        assert(text[n - 1].0@ == key);
        assert(forall|j: int| 0 <= j < n - 1 ==> text[j].0@ != key);
    }
}

proof fn lemma_field_is_first_value(text: Seq<(String, String)>, key: Seq<char>)
    ensures
        field_spec(text, key) == first_value(pairs_of(text), key),
{
    reveal(first_value);
    let ps = pairs_of(text);
    if exists|i: int| 0 <= i < text.len() && #[trigger] text[i].0@ == key {
        lemma_first_entry(text, key, text.len() as int);
        let w = choose|w: int| 0 <= w < text.len() && #[trigger] text[w].0@ == key
            && forall|j: int| 0 <= j < w ==> text[j].0@ != key;
        assert(ps[w].0 == key);
        assert forall|j: int| 0 <= j < w implies (#[trigger] ps[j]).0 != key by {
            assert(ps[j].0 == text[j].0@);
        }
        lemma_first_value_at(ps, key, w);
    } else {
        assert forall|i: int| 0 <= i < ps.len() implies (#[trigger] ps[i]).0 != key by {
            assert(ps[i].0 == text[i].0@);
        }
    }
}

/// Setting `key` makes `value` its first value.
proof fn lemma_set_pair_first(pairs: Seq<(Seq<char>, Seq<char>)>, key: Seq<char>, value: Seq<char>)
    ensures
        first_value(set_pair(pairs, key, value), key) == Some(value),
{
    let out = set_pair(pairs, key, value);
    if exists|i: int| 0 <= i < pairs.len() && (#[trigger] pairs[i]).0 == key {
        lemma_first_pair(pairs, key, pairs.len() as int);
        let at = choose|i: int| 0 <= i < pairs.len() && (#[trigger] pairs[i]).0 == key
            && forall|j: int| 0 <= j < i ==> pairs[j].0 != key;
        assert(out == pairs.update(at, (key, value)));
        assert forall|j: int| 0 <= j < at implies (#[trigger] out[j]).0 != key by {
            assert(out[j] == pairs[j]);
        }
        lemma_first_value_at(out, key, at);
    } else {
        assert(out == pairs.push((key, value)));
        assert forall|j: int| 0 <= j < pairs.len() implies (#[trigger] out[j]).0 != key by {
            assert(out[j] == pairs[j]);
        }
        lemma_first_value_at(out, key, pairs.len() as int);
    }
}

/// Setting another key leaves the first value under `key` as it was.
proof fn lemma_set_pair_other(pairs: Seq<(Seq<char>, Seq<char>)>, other: Seq<char>, value: Seq<char>, key: Seq<char>)
    requires
        other != key,
    ensures
        first_value(set_pair(pairs, other, value), key) == first_value(pairs, key),
{
    let out = set_pair(pairs, other, value);
    if exists|i: int| 0 <= i < pairs.len() && (#[trigger] pairs[i]).0 == other {
        lemma_first_pair(pairs, other, pairs.len() as int);
        let at = choose|i: int| 0 <= i < pairs.len() && (#[trigger] pairs[i]).0 == other
            && forall|j: int| 0 <= j < i ==> pairs[j].0 != other;
        assert(out == pairs.update(at, (other, value)));
        assert forall|i: int| 0 <= i < pairs.len() implies ((#[trigger] out[i]).0 == key) == (pairs[i].0 == key) && (pairs[i].0 == key ==> out[i] == pairs[i]) by {
            if i == at {
                assert(pairs[i].0 == other);
            }
        }
    } else {
        assert(out == pairs.push((other, value)));
        assert forall|i: int| 0 <= i < pairs.len() implies ((#[trigger] out[i]).0 == key) == (pairs[i].0 == key) && (pairs[i].0 == key ==> out[i] == pairs[i]) by {
        }
    }
    if exists|i: int| 0 <= i < pairs.len() && (#[trigger] pairs[i]).0 == key {
        lemma_first_pair(pairs, key, pairs.len() as int);
        let w = choose|w: int| 0 <= w < pairs.len() && (#[trigger] pairs[w]).0 == key
            && forall|j: int| 0 <= j < w ==> pairs[j].0 != key;
        lemma_first_value_at(pairs, key, w);
        assert forall|j: int| 0 <= j < w implies (#[trigger] out[j]).0 != key by {
            assert(pairs[j].0 != key);
        }
        lemma_first_value_at(out, key, w);
    } else {
        reveal(first_value);
        assert forall|i: int| 0 <= i < out.len() implies (#[trigger] out[i]).0 != key by {
            if i < pairs.len() {
            } else {
                assert(out[i].0 == other);
            }
        }
    }
}

/// A floatie that followed its file to `to` stands for `to` from then on (without
/// surrounding white space), when its kind keeps the path under a key other than `name`
/// and `to` is not blank: the next reconcile finds it, and does not add a second one.
pub proof fn a_moved_floatie_stands_for_its_new_path(
    installed: Seq<InstalledPlugin>,
    before: WidgetRecord,
    after: WidgetRecord,
    to: Seq<char>,
)
    requires
        after.kind == before.kind,
        pairs_of(after.text@) == renamed_text(installed, before, to),
        desktop_facts(installed, before.kind@) matches Some((key, _)) && key != "name"@,
        crate::text::trim_spec(to).len() > 0,
    ensures
        record_path_spec(installed, after.kind@, after.text@) == Some(crate::text::trim_spec(to)),
{
    let key = match desktop_facts(installed, before.kind@) {
        Some((k, _)) => k,
        None => seq![],
    };
    let label = match file_name_spec(to) {
        Some(n) => n,
        None => seq![],
    };
    let moved = set_pair(pairs_of(before.text@), key, to);
    lemma_set_pair_first(pairs_of(before.text@), key, to);
    if label.len() > 0 && field_spec(before.text@, "name"@) is Some {
        lemma_set_pair_other(moved, "name"@, label, key);
    }
    lemma_field_is_first_value(after.text@, key);
}

} // verus!
