//! A folder's items, as a scan of its directory finds them.
//!
//! Reading the directory is the caller's; which entries show, and in which order, is
//! decided here: hidden files and the shell's bookkeeping stay out, directories come
//! first, and then the names in order without regard to case.

use vstd::prelude::*;
use crate::folders::{item_view, items_view, FolderItem};
use crate::mirror::{hidden_spec, is_hidden};
use crate::text::{chars_of, is_sorted_order, lowercase, sorted_order, to_lowercase};

verus! {

broadcast use vstd::seq_lib::group_seq_properties;

/// One entry of a directory listing: its name, its path, and whether it is a directory.
pub struct DirEntry {
    pub name: String,
    pub path: String,
    pub is_dir: bool,
}

/// What a folder's items are ordered by: directories first, then the lower-cased name.
pub open spec fn item_order_key(e: DirEntry) -> Seq<char> {
    seq![if e.is_dir { '0' } else { '1' }] + lowercase(e.name@)
}

/// The entries a folder shows: the listing without hidden entries, in listing order.
pub open spec fn shown_entries(es: Seq<DirEntry>) -> Seq<DirEntry>
    decreases es.len(),
{
    if es.len() == 0 {
        seq![]
    } else {
        let prev = shown_entries(es.drop_last());
        if hidden_spec(es.last().name@) { prev } else { prev.push(es.last()) }
    }
}

/// The order keys of the entries a folder shows.
pub open spec fn shown_keys(es: Seq<DirEntry>) -> Seq<Seq<char>> {
    let shown = shown_entries(es);
    Seq::new(shown.len(), |i: int| item_order_key(shown[i]))
}

/// A folder's items from its directory's listing: every entry the desktop shows, without
/// an icon yet, directories first and then by lower-cased name (ties in listing order).
pub fn folder_items_from(listing: &Vec<DirEntry>) -> (r: Vec<FolderItem>)
    ensures
        exists|order: Seq<usize>| {
            let shown = shown_entries(listing@);
            &&& #[trigger] is_sorted_order(shown_keys(listing@), order)
            &&& items_view(r@) == Seq::new(order.len(), |k: int|
                (shown[order[k] as int].name@, shown[order[k] as int].path@, ""@, shown[order[k] as int].is_dir))
        },
{
    let ghost shown = shown_entries(listing@);
    let mut kept: Vec<usize> = Vec::new();
    let mut keys: Vec<Vec<char>> = Vec::new();
    let mut i: usize = 0;
    while i < listing.len()
        invariant
            i <= listing@.len(),
            kept@.len() == keys@.len(),
            kept@.len() == shown_entries(listing@.take(i as int)).len(),
            forall|k: int| 0 <= k < kept@.len() ==> #[trigger] kept@[k] < i
                && listing@[kept@[k] as int] == shown_entries(listing@.take(i as int))[k],
            forall|k: int| 0 <= k < keys@.len() ==> (#[trigger] keys@[k])@ == item_order_key(shown_entries(listing@.take(i as int))[k]),
        decreases listing.len() - i,
    {
        proof {
            assert(listing@.take(i + 1).drop_last() =~= listing@.take(i as int));
        }
        let e = &listing[i];
        if !is_hidden(e.name.as_str()) {
            let mut key: Vec<char> = Vec::new();
            key.push(if e.is_dir { '0' } else { '1' });
            let lower = chars_of(to_lowercase(e.name.as_str()).as_str());
            let mut k: usize = 0;
            while k < lower.len()
                invariant
                    k <= lower@.len(),
                    key@ == seq![if e.is_dir { '0' } else { '1' }] + lower@.take(k as int),
                decreases lower.len() - k,
            {
                key.push(lower[k]);
                k += 1;
                assert(key@ =~= seq![if e.is_dir { '0' } else { '1' }] + lower@.take(k as int));
            }
            assert(lower@.take(lower@.len() as int) =~= lower@);
            kept.push(i);
            keys.push(key);
        }
        i += 1;
    }
    assert(listing@.take(listing@.len() as int) =~= listing@);
    let order = sorted_order(&keys);
    let ghost ks = Seq::new(keys@.len(), |i: int| keys@[i]@);
    assert(ks =~= shown_keys(listing@));
    let mut out: Vec<FolderItem> = Vec::new();
    let mut k: usize = 0;
    while k < order.len()
        invariant
            k <= order@.len(),
            order@.len() == kept@.len() == shown.len(),
            forall|j: int| 0 <= j < order@.len() ==> #[trigger] order@[j] < shown.len(),
            forall|j: int| 0 <= j < kept@.len() ==> #[trigger] kept@[j] < listing@.len() && listing@[kept@[j] as int] == shown[j],
            items_view(out@) =~= Seq::new(k as nat, |j: int|
                (shown[order@[j] as int].name@, shown[order@[j] as int].path@, ""@, shown[order@[j] as int].is_dir)),
        decreases order.len() - k,
    {
        let at = order[k];
        assert(order@[k as int] < shown.len());
        assert(kept@[at as int] < listing@.len() && listing@[kept@[at as int] as int] == shown[at as int]);
        let e = &listing[kept[at]];
        let it = FolderItem { name: e.name.clone(), target: e.path.clone(), icon: String::new(), is_dir: e.is_dir };
        proof {
            reveal_strlit("");
            assert(item_view(it) == (shown[order@[k as int] as int].name@, shown[order@[k as int] as int].path@, ""@, shown[order@[k as int] as int].is_dir));
        }
        let ghost before = out@;
        out.push(it);
        assert(items_view(out@) =~= items_view(before).push(item_view(it)));
        k += 1;
    }
    assert(is_sorted_order(shown_keys(listing@), order@));
    out
}

} // verus!
