//! Bringing back the floaties whose screen is gone.
//!
//! Which screen a point is on, and where on it a floatie fits, is measured in the
//! screens' own (fractional) coordinates by the caller. What is decided here is the order
//! they come back in: top-down, then left-to-right, so that with several coming back at
//! once which one ends up where does not depend on how the store happens to list them.

use vstd::prelude::*;

verus! {

broadcast use vstd::seq_lib::group_seq_properties;

/// Does the floatie at index `i` come back before the one at `j`? Higher up first, then
/// further left, then in the order given. `ps` holds the positions as (x, y).
pub open spec fn comes_first(ps: Seq<(i32, i32)>, i: int, j: int) -> bool {
    ||| ps[i].1 < ps[j].1
    ||| (ps[i].1 == ps[j].1 && ps[i].0 < ps[j].0)
    ||| (ps[i].1 == ps[j].1 && ps[i].0 == ps[j].0 && i < j)
}

fn comes_first_exec(ps: &Vec<(i32, i32)>, i: usize, j: usize) -> (r: bool)
    requires
        i < ps@.len(),
        j < ps@.len(),
    ensures
        r == comes_first(ps@, i as int, j as int),
{
    let (a, b) = (ps[i], ps[j]);
    a.1 < b.1 || (a.1 == b.1 && a.0 < b.0) || (a.1 == b.1 && a.0 == b.0 && i < j)
}

/// The order in which the stranded floaties at `positions` come back: every index once,
/// top-down, then left-to-right, ties in the order given.
pub fn rehome_order(positions: &Vec<(i32, i32)>) -> (r: Vec<usize>)
    ensures
        r@.len() == positions@.len(),
        forall|k: int| 0 <= k < r@.len() ==> #[trigger] r@[k] < positions@.len(),
        forall|i: usize| i < positions@.len() ==> #[trigger] r@.contains(i),
        forall|a: int, b: int| 0 <= a < b < r@.len() ==> comes_first(positions@, #[trigger] r@[a] as int, #[trigger] r@[b] as int),
{
    let ps = positions;
    let mut out: Vec<usize> = Vec::new();
    let mut i: usize = 0;
    while i < ps.len()
        invariant
            i <= ps@.len(),
            out@.len() == i,
            forall|k: int| 0 <= k < out@.len() ==> #[trigger] out@[k] < i,
            forall|t: usize| t < i ==> #[trigger] out@.contains(t),
            forall|a: int, b: int| 0 <= a < b < out@.len() ==> comes_first(ps@, #[trigger] out@[a] as int, #[trigger] out@[b] as int),
        decreases ps.len() - i,
    {
        let mut p: usize = 0;
        while p < out.len() && comes_first_exec(ps, out[p], i)
            invariant
                p <= out@.len(),
                i < ps@.len(),
                forall|k: int| 0 <= k < out@.len() ==> #[trigger] out@[k] < i,
                forall|k: int| 0 <= k < p ==> comes_first(ps@, #[trigger] out@[k] as int, i as int),
            decreases out.len() - p,
        {
            p += 1;
        }
        let ghost before = out@;
        out.insert(p, i);
        proof {
            assert(out@ == before.insert(p as int, i));
            assert forall|k: int| 0 <= k < out@.len() implies #[trigger] out@[k] < i + 1 by {
                if k < p {
                    assert(out@[k] == before[k]);
                } else if k > p {
                    assert(out@[k] == before[k - 1]);
                }
            }
            assert forall|t: usize| t < i + 1 implies #[trigger] out@.contains(t) by {
                if t == i {
                    assert(out@[p as int] == i);
                } else {
                    assert(before.contains(t));
                    let k = choose|k: int| 0 <= k < before.len() && before[k] == t;
                    if k < p {
                        assert(out@[k] == before[k]);
                    } else {
                        assert(out@[k + 1] == before[k]);
                    }
                }
            }
            assert forall|a: int, b: int| 0 <= a < b < out@.len()
                implies comes_first(ps@, #[trigger] out@[a] as int, #[trigger] out@[b] as int) by {
                if p < before.len() {
                    assert(!comes_first(ps@, before[p as int] as int, i as int));
                    assert(before[p as int] < i);
                }
                if b < p {
                    assert(out@[a] == before[a] && out@[b] == before[b]);
                } else if b == p {
                    assert(out@[a] == before[a]);
                } else if a < p {
                    assert(out@[a] == before[a] && out@[b] == before[b - 1]);
                } else if a == p {
                    assert(out@[b] == before[b - 1]);
                    if b - 1 > p {
                        assert(comes_first(ps@, before[p as int] as int, before[b - 1] as int));
                    }
                } else {
                    assert(out@[a] == before[a - 1] && out@[b] == before[b - 1]);
                }
            }
        }
        i += 1;
    }
    out
}

} // verus!
