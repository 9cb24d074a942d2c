//! Mirroring the pointed root: bring the desktop in step with what the folder holds.
//!
//! Add what is new, refresh the folders whose contents changed, and (the half that makes
//! this a mirror rather than an importer) take off the desktop what is no longer there.
//! Only records the folder owns can go, and only when the listing ran to the end: a
//! directory that could not be read must never look like a directory that is empty.
//! Listing the folder and writing the store are the caller's.

use vstd::prelude::*;
use crate::desktop::{kind_for_path, kind_for_path_spec, mirrors_root_entry, mirrors_root_entry_spec};
use crate::folders::{
    carry_icons_by_name, carry_icons_by_target, carried, field, field_spec, item_view, items_view,
    record_path, record_path_spec, FolderItem, ItemView, WidgetRecord,
};
use crate::plugins::{desktop_facts, is_path_kind, InstalledPlugin};
use crate::text::{
    ascii_lower_seq, chars_eq, chars_of, eq_ignore_ascii_case, eq_ignore_case, push_dec, push_str,
    to_ascii_lowercase, to_string, dec_digits,
};

verus! {

broadcast use vstd::seq_lib::group_seq_properties;

// ------------------------------------------------------------------------------------
// Where a new floatie goes
// ------------------------------------------------------------------------------------

/// The `k`th spot a new floatie may take: columns of seven from the top left.
pub open spec fn slot(k: nat) -> (int, int) {
    (80 + 105 * (k / 7) as int, 80 + 115 * (k % 7) as int)
}

pub open spec fn abs_int(v: int) -> int {
    if v < 0 { -v } else { v }
}

/// Is `p` within 50px of `q` on both axes?
pub open spec fn near(p: (i32, i32), q: (int, int)) -> bool {
    abs_int(p.0 - q.0) < 50 && abs_int(p.1 - q.1) < 50
}

/// Does a floatie already sit on spot `k`?
pub open spec fn blocked(occupied: Seq<(i32, i32)>, k: nat) -> bool {
    exists|i: int| 0 <= i < occupied.len() && near(#[trigger] occupied[i], slot(k))
}

/// The first free spot.
pub open spec fn first_free_slot(occupied: Seq<(i32, i32)>) -> nat {
    choose|k: nat| !blocked(occupied, k) && forall|j: nat| j < k ==> blocked(occupied, j)
}

/// A floatie is near at most one spot.
proof fn lemma_near_one_slot(p: (i32, i32), a: nat, b: nat)
    requires
        near(p, slot(a)),
        near(p, slot(b)),
    ensures
        a == b,
{
    let (ax, ay) = slot(a);
    let (bx, by) = slot(b);
    assert(abs_int(ax - bx) < 100);
    assert(abs_int(ay - by) < 100);
    assert(a / 7 == b / 7) by (nonlinear_arith)
        requires
            abs_int((80 + 105 * (a / 7) as int) - (80 + 105 * (b / 7) as int)) < 100,
    {
    }
    assert(a % 7 == b % 7) by (nonlinear_arith)
        requires
            abs_int((80 + 115 * (a % 7) as int) - (80 + 115 * (b % 7) as int)) < 100,
    {
    }
    assert(a == 7 * (a / 7) + a % 7) by (nonlinear_arith);
    assert(b == 7 * (b / 7) + b % 7) by (nonlinear_arith);
}

/// Among the first `n + 1` spots one is free, when `n` floaties are placed.
proof fn lemma_a_free_slot(occupied: Seq<(i32, i32)>)
    ensures
        exists|k: nat| k <= occupied.len() && !blocked(occupied, k),
{
    let n = occupied.len();
    if forall|k: nat| k <= n ==> blocked(occupied, k) {
        let w = |k: int| choose|i: int| 0 <= i < occupied.len() && near(#[trigger] occupied[i], slot(k as nat));
        let s = vstd::set_lib::set_int_range(0, (n + 1) as int);
        let t = vstd::set_lib::set_int_range(0, n as int);
        vstd::set_lib::lemma_int_range(0, (n + 1) as int);
        vstd::set_lib::lemma_int_range(0, n as int);
        assert forall|a: int, b: int| s.contains(a) && s.contains(b) && #[trigger] w(a) == #[trigger] w(b) implies a == b by {
            assert(blocked(occupied, a as nat));
            assert(blocked(occupied, b as nat));
            lemma_near_one_slot(occupied[w(a)], a as nat, b as nat);
        }
        assert(vstd::relations::injective_on(w, s));
        let img = s.map(w);
        vstd::set_lib::lemma_map_size(s, img, w);
        assert forall|i: int| img.contains(i) implies t.contains(i) by {
            let a = choose|a: int| s.contains(a) && w(a) == i;
            assert(blocked(occupied, a as nat));
        }
        vstd::set_lib::lemma_len_subset(img, t);
        assert(false);
    }
}

fn is_near(p: (i32, i32), x: i64, y: i64) -> (r: bool)
    requires
        -4_000_000_000 <= x <= 4_000_000_000,
        -4_000_000_000 <= y <= 4_000_000_000,
    ensures
        r == near(p, (x as int, y as int)),
{
    let dx = (p.0 as i64) - x;
    let dy = (p.1 as i64) - y;
    let ax = if dx < 0 { -dx } else { dx };
    let ay = if dy < 0 { -dy } else { dy };
    ax < 50 && ay < 50
}

fn is_blocked(occupied: &Vec<(i32, i32)>, x: i64, y: i64) -> (r: bool)
    requires
        -4_000_000_000 <= x <= 4_000_000_000,
        -4_000_000_000 <= y <= 4_000_000_000,
    ensures
        r == exists|i: int| 0 <= i < occupied@.len() && near(#[trigger] occupied@[i], (x as int, y as int)),
{
    let mut i: usize = 0;
    while i < occupied.len()
        invariant
            i <= occupied.len(),
            -4_000_000_000 <= x <= 4_000_000_000,
            -4_000_000_000 <= y <= 4_000_000_000,
            forall|j: int| 0 <= j < i ==> !near(#[trigger] occupied@[j], (x as int, y as int)),
        decreases occupied.len() - i,
    {
        if is_near(occupied[i], x, y) {
            return true;
        }
        i += 1;
    }
    false
}

/// The first free spot for a new floatie, taken: it joins the occupied ones. The first
/// free spot is at most the number of occupied ones, and its column has to fit an `i32`:
/// seven spots to a column, 105px apart from x = 80, is 143,165,574 spots.
pub fn next_pos(occupied: &mut Vec<(i32, i32)>) -> (r: (i32, i32))
    requires
        old(occupied)@.len() <= 143_165_574,
    ensures
        final(occupied)@ == old(occupied)@.push(r),
        (r.0 as int, r.1 as int) == slot(first_free_slot(old(occupied)@)),
        !blocked(old(occupied)@, first_free_slot(old(occupied)@)),
        first_free_slot(old(occupied)@) <= old(occupied)@.len(),
{
    let ghost occ = occupied@;
    proof {
        lemma_a_free_slot(occ);
    }
    let mut k: u64 = 0;
    while is_blocked(occupied, 80 + 105 * ((k / 7) as i64), 80 + 115 * ((k % 7) as i64))
        invariant
            occ == occupied@,
            occ.len() <= 143_165_574,
            exists|f: nat| f <= occ.len() && !blocked(occ, f),
            forall|j: nat| j < k ==> blocked(occ, j),
            k <= occ.len(),
        decreases occ.len() - k,
    {
        proof {
            assert(blocked(occ, k as nat));
            if k == occ.len() {
                let f = choose|f: nat| f <= occ.len() && !blocked(occ, f);
                assert(blocked(occ, f));
            }
        }
        k = k + 1;
    }
    let x: i64 = 80 + 105 * ((k / 7) as i64);
    let y: i64 = 80 + 115 * ((k % 7) as i64);
    assert((x as int, y as int) == slot(k as nat));
    assert(80 <= x <= 2_147_483_600) by (nonlinear_arith)
        requires
            x == 80 + 105 * (k / 7),
            0 <= k <= 143_165_574,
    {
    }
    proof {
        let f = first_free_slot(occ);
        assert(!blocked(occ, k as nat));
        assert(!blocked(occ, f) && forall|j: nat| j < f ==> blocked(occ, j));
        if f < k {
            assert(blocked(occ, f));
        } else if f > k {
            assert(blocked(occ, k as nat));
        }
    }
    let p = (x as i32, y as i32);
    occupied.push(p);
    p
}

// ------------------------------------------------------------------------------------
// The reconcile
// ------------------------------------------------------------------------------------

/// One entry of the root, as the listing found it: a directory comes with the items a
/// scan of it found.
pub struct RootEntry {
    pub name: String,
    pub path: String,
    pub is_dir: bool,
    pub items: Vec<FolderItem>,
}

/// A floatie the mirror adds: a folder keeps its path and items, an app or a file its
/// target (and starts without an icon).
pub struct NewFloatie {
    pub id: String,
    pub kind: &'static str,
    pub x: i32,
    pub y: i32,
    pub name: String,
    pub path: String,
    pub items: Vec<FolderItem>,
}

/// What a reconcile does: the floaties to add, the folders whose items changed (by record
/// index), the records whose file is gone (by record index), what the listing counted,
/// and the id counter after the new ids.
pub struct Reconcile {
    pub added: Vec<NewFloatie>,
    pub refreshed: Vec<(usize, Vec<FolderItem>)>,
    pub vanished: Vec<usize>,
    pub files: usize,
    pub dirs: usize,
    pub next_id: u64,
}

pub type AddedView = (Seq<char>, Seq<char>, i32, i32, Seq<char>, Seq<char>, Seq<ItemView>);

pub open spec fn added_view(f: NewFloatie) -> AddedView {
    (f.id@, f.kind@, f.x, f.y, f.name@, f.path@, items_view(f.items@))
}

/// Names the desktop never shows: hidden files, and the shell's own bookkeeping.
pub open spec fn hidden_spec(name: Seq<char>) -> bool {
    (name.len() > 0 && name[0] == '.') || eq_ignore_ascii_case(name, "desktop.ini"@)
        || eq_ignore_ascii_case(name, "thumbs.db"@)
}

/// The path a record already stands for: a folder's directory, an app's or a file's
/// target.
pub open spec fn key_path(installed: Seq<InstalledPlugin>, r: WidgetRecord) -> Option<Seq<char>> {
    if r.kind@ == "folder"@ {
        field_spec(r.text@, "path"@)
    } else if desktop_facts(installed, r.kind@) matches Some((_, g)) && !g {
        field_spec(r.text@, "target"@)
    } else {
        None
    }
}

/// The record that stands for `p` among the first `n`: the last one, when several do.
pub open spec fn owner_in(installed: Seq<InstalledPlugin>, records: Seq<WidgetRecord>, p: Seq<char>, n: int) -> Option<int>
    decreases n,
{
    if n <= 0 {
        None
    } else if key_path(installed, records[n - 1]) == Some(p) {
        Some(n - 1)
    } else {
        owner_in(installed, records, p, n - 1)
    }
}

pub open spec fn owner(installed: Seq<InstalledPlugin>, records: Seq<WidgetRecord>, p: Seq<char>) -> Option<int> {
    owner_in(installed, records, p, records.len() as int)
}

/// A rescan of a folder with the icons already resolved carried over: by target, then by
/// name for a folder whose directory was renamed.
pub open spec fn refreshed_items(old: Seq<FolderItem>, items: Seq<ItemView>) -> Seq<ItemView> {
    Seq::new(items.len(), |i: int| carried(old, carried(old, items[i], false), true))
}

/// The reconcile so far.
pub struct MirrorState {
    pub added: Seq<AddedView>,
    pub refreshed: Seq<(int, Seq<ItemView>)>,
    pub on_disk: Seq<Seq<char>>,
    pub files: nat,
    pub dirs: nat,
    pub next: int,
    pub occupied: Seq<(i32, i32)>,
}

pub open spec fn id_of(kind: Seq<char>, n: int) -> Seq<char> {
    kind + "-"@ + dec_digits(n as nat)
}

/// One entry applied.
pub open spec fn mirror_step(installed: Seq<InstalledPlugin>, records: Seq<WidgetRecord>, s: MirrorState, e: RootEntry) -> MirrorState {
    if hidden_spec(e.name@) {
        s
    } else {
        let s1 = MirrorState { on_disk: s.on_disk.push(ascii_lower_seq(e.path@)), ..s };
        let spot = slot(first_free_slot(s.occupied));
        let at = (spot.0 as i32, spot.1 as i32);
        if e.is_dir {
            let s2 = match owner(installed, records, e.path@) {
                Some(i) => if records[i].kind@ == "folder"@ {
                    let items = refreshed_items(records[i].items@, items_view(e.items@));
                    if items_view(records[i].items@) != items {
                        MirrorState { refreshed: s1.refreshed.push((i, items)), ..s1 }
                    } else {
                        s1
                    }
                } else {
                    s1
                },
                None => MirrorState {
                    added: s1.added.push((id_of("folder"@, s.next + 1), "folder"@, at.0, at.1, e.name@, e.path@, items_view(e.items@))),
                    next: s.next + 1,
                    occupied: s.occupied.push(at),
                    ..s1
                },
            };
            MirrorState { dirs: s2.dirs + 1, ..s2 }
        } else {
            let kind = kind_for_path_spec(e.path@, false);
            let s2 = match owner(installed, records, e.path@) {
                Some(_) => s1,
                None => MirrorState {
                    added: s1.added.push((id_of(kind, s.next + 1), kind, at.0, at.1, e.name@, e.path@, seq![])),
                    next: s.next + 1,
                    occupied: s.occupied.push(at),
                    ..s1
                },
            };
            MirrorState { files: s2.files + 1, ..s2 }
        }
    }
}

pub open spec fn mirror_fold(installed: Seq<InstalledPlugin>, records: Seq<WidgetRecord>, start: MirrorState, es: Seq<RootEntry>) -> MirrorState
    decreases es.len(),
{
    if es.len() == 0 {
        start
    } else {
        mirror_step(installed, records, mirror_fold(installed, records, start, es.drop_last()), es.last())
    }
}

pub open spec fn positions(records: Seq<WidgetRecord>) -> Seq<(i32, i32)> {
    Seq::new(records.len(), |i: int| (records[i].x, records[i].y))
}

pub open spec fn start_state(records: Seq<WidgetRecord>, next: u64) -> MirrorState {
    MirrorState { added: seq![], refreshed: seq![], on_disk: seq![], files: 0, dirs: 0, next: next as int, occupied: positions(records) }
}

/// Has the record `r` lost the file it mirrors? Only a record the root owns can, and only
/// when nothing in the listing is its path (compared without ASCII case).
pub open spec fn gone(installed: Seq<InstalledPlugin>, root: Seq<char>, on_disk: Seq<Seq<char>>, r: WidgetRecord) -> bool {
    match record_path_spec(installed, r.kind@, r.text@) {
        Some(p) => mirrors_root_entry_spec(root, p) && !on_disk.contains(ascii_lower_seq(p)),
        None => false,
    }
}

/// The records that are gone, among the first `n`.
pub open spec fn gone_in(installed: Seq<InstalledPlugin>, root: Seq<char>, on_disk: Seq<Seq<char>>, records: Seq<WidgetRecord>, n: int) -> Seq<int>
    decreases n,
{
    if n <= 0 {
        seq![]
    } else {
        let prev = gone_in(installed, root, on_disk, records, n - 1);
        if gone(installed, root, on_disk, records[n - 1]) { prev.push(n - 1) } else { prev }
    }
}

/// Is this a name the desktop never shows?
pub fn is_hidden(name: &str) -> (r: bool)
    ensures
        r == hidden_spec(name@),
{
    let v = chars_of(name);
    (v.len() > 0 && v[0] == '.') || eq_ignore_case(&v, &chars_of("desktop.ini"))
        || eq_ignore_case(&v, &chars_of("thumbs.db"))
}

fn key_path_of(installed: &[InstalledPlugin], r: &WidgetRecord) -> (p: Option<String>)
    ensures
        p matches Some(s) ==> key_path(installed@, *r) == Some(s@),
        p is None <==> key_path(installed@, *r) is None,
{
    if chars_eq(&chars_of(r.kind.as_str()), &chars_of("folder")) {
        field(&r.text, "path")
    } else if is_path_kind(installed, r.kind.as_str()) {
        field(&r.text, "target")
    } else {
        None
    }
}

/// The record that already stands for `path`: the last one, when several do.
fn owner_of(installed: &[InstalledPlugin], records: &Vec<WidgetRecord>, path: &String) -> (r: Option<usize>)
    ensures
        r matches Some(i) ==> i < records@.len() && owner(installed@, records@, path@) == Some(i as int),
        r is None <==> owner(installed@, records@, path@) is None,
{
    let mut n: usize = records.len();
    while n > 0
        invariant
            n <= records.len(),
            owner(installed@, records@, path@) == owner_in(installed@, records@, path@, n as int),
        decreases n,
    {
        let hit = match key_path_of(installed, &records[n - 1]) {
            Some(k) => k == *path,
            None => false,
        };
        if hit {
            return Some(n - 1);
        }
        n -= 1;
    }
    None
}

/// A copy of a list of folder items.
pub fn copy_items(v: &Vec<FolderItem>) -> (r: Vec<FolderItem>)
    ensures
        items_view(r@) == items_view(v@),
{
    let mut out: Vec<FolderItem> = Vec::new();
    let mut i: usize = 0;
    while i < v.len()
        invariant
            i <= v.len(),
            items_view(out@) =~= items_view(v@).take(i as int),
        decreases v.len() - i,
    {
        let it = &v[i];
        let c = FolderItem { name: it.name.clone(), target: it.target.clone(), icon: it.icon.clone(), is_dir: it.is_dir };
        let ghost before = out@;
        out.push(c);
        assert(items_view(out@) =~= items_view(before).push(item_view(c)));
        assert(items_view(v@).take(i + 1) =~= items_view(v@).take(i as int).push(item_view(v@[i as int])));
        i += 1;
    }
    assert(items_view(v@).take(v.len() as int) =~= items_view(v@));
    out
}

fn same_items(a: &Vec<FolderItem>, b: &Vec<FolderItem>) -> (r: bool)
    ensures
        r == (items_view(a@) == items_view(b@)),
{
    if a.len() != b.len() {
        assert(items_view(a@).len() != items_view(b@).len());
        return false;
    }
    let mut i: usize = 0;
    while i < a.len()
        invariant
            i <= a.len() == b.len(),
            forall|j: int| 0 <= j < i ==> item_view(a@[j]) == item_view(b@[j]),
        decreases a.len() - i,
    {
        let (p, q) = (&a[i], &b[i]);
        if !(p.name == q.name && p.target == q.target && p.icon == q.icon && p.is_dir == q.is_dir) {
            assert(items_view(a@)[i as int] != items_view(b@)[i as int]);
            return false;
        }
        i += 1;
    }
    assert(items_view(a@) =~= items_view(b@));
    true
}

fn refresh(old: &Vec<FolderItem>, items: &Vec<FolderItem>) -> (r: Vec<FolderItem>)
    ensures
        items_view(r@) == refreshed_items(old@, items_view(items@)),
{
    let mut v = copy_items(items);
    let ghost v0 = v@;
    carry_icons_by_target(old.as_slice(), &mut v);
    let ghost v1 = v@;
    assert(items_view(v0).len() == v0.len());
    assert(items_view(v1).len() == v0.len());
    assert forall|i: int| 0 <= i < v1.len() implies item_view(#[trigger] v1[i]) == carried(old@, items_view(items@)[i], false) by {
        assert(items_view(v1)[i] == item_view(v1[i]));
        assert(items_view(v0)[i] == item_view(v0[i]));
        assert(items_view(v1)[i] == carried(old@, item_view(v0[i]), false));
    }
    carry_icons_by_name(old.as_slice(), &mut v);
    assert(items_view(v@) =~= refreshed_items(old@, items_view(items@)));
    v
}

/// The id of the `n`th floatie of a kind: `<kind>-<n>`.
pub fn make_id(kind: &str, n: u64) -> (r: String)
    ensures
        r@ == id_of(kind@, n as int),
{
    let mut r = to_string(kind);
    push_str(&mut r, "-");
    push_dec(&mut r, n);
    r
}

fn lower_contains(list: &Vec<Vec<char>>, p: &Vec<char>) -> (r: bool)
    ensures
        r == Seq::new(list@.len(), |i: int| list@[i]@).contains(p@),
{
    let ghost view = Seq::new(list@.len(), |i: int| list@[i]@);
    let mut i: usize = 0;
    while i < list.len()
        invariant
            i <= list.len(),
            view == Seq::new(list@.len(), |i: int| list@[i]@),
            forall|j: int| 0 <= j < i ==> view[j] != p@,
        decreases list.len() - i,
    {
        if chars_eq(&list[i], p) {
            assert(view[i as int] == p@);
            return true;
        }
        i += 1;
    }
    false
}

pub open spec fn refreshed_view(r: Seq<(usize, Vec<FolderItem>)>) -> Seq<(int, Seq<ItemView>)> {
    Seq::new(r.len(), |i: int| (r[i].0 as int, items_view(r[i].1@)))
}

pub open spec fn lowered(v: Seq<Vec<char>>) -> Seq<Seq<char>> {
    Seq::new(v.len(), |i: int| v[i]@)
}

pub open spec fn state_of(
    added: Seq<NewFloatie>,
    refreshed: Seq<(usize, Vec<FolderItem>)>,
    on_disk: Seq<Vec<char>>,
    files: usize,
    dirs: usize,
    next: u64,
    occupied: Seq<(i32, i32)>,
) -> MirrorState {
    MirrorState {
        added: added.map_values(|f: NewFloatie| added_view(f)),
        refreshed: refreshed_view(refreshed),
        on_disk: lowered(on_disk),
        files: files as nat,
        dirs: dirs as nat,
        next: next as int,
        occupied,
    }
}

/// One entry of the listing applied.
fn step_entry(
    installed: &[InstalledPlugin],
    records: &Vec<WidgetRecord>,
    e: &RootEntry,
    added: &mut Vec<NewFloatie>,
    refreshed: &mut Vec<(usize, Vec<FolderItem>)>,
    on_disk: &mut Vec<Vec<char>>,
    files: &mut usize,
    dirs: &mut usize,
    next: &mut u64,
    occupied: &mut Vec<(i32, i32)>,
)
    requires
        old(occupied)@.len() < 143_165_574,
        *old(next) < u64::MAX,
        *old(files) + *old(dirs) < usize::MAX,
    ensures
        state_of(final(added)@, final(refreshed)@, final(on_disk)@, *final(files), *final(dirs), *final(next), final(occupied)@)
            == mirror_step(installed@, records@, state_of(old(added)@, old(refreshed)@, old(on_disk)@, *old(files), *old(dirs), *old(next), old(occupied)@), *e),
        *final(files) + *final(dirs) <= *old(files) + *old(dirs) + 1,
        *final(next) <= *old(next) + 1,
        final(occupied)@.len() <= old(occupied)@.len() + 1,
{
    if is_hidden(e.name.as_str()) {
        return;
    }
    let ghost on_before = on_disk@;
    on_disk.push(to_ascii_lowercase(e.path.as_str()));
    assert(lowered(on_disk@) =~= lowered(on_before).push(ascii_lower_seq(e.path@)));
    if e.is_dir {
        dir_entry(installed, records, e, added, refreshed, next, occupied);
        *dirs = *dirs + 1;
    } else {
        file_entry(installed, records, e, added, next, occupied);
        *files = *files + 1;
    }
}

#[verifier::rlimit(40)]
fn dir_entry(
    installed: &[InstalledPlugin],
    records: &Vec<WidgetRecord>,
    e: &RootEntry,
    added: &mut Vec<NewFloatie>,
    refreshed: &mut Vec<(usize, Vec<FolderItem>)>,
    next: &mut u64,
    occupied: &mut Vec<(i32, i32)>,
)
    requires
        old(occupied)@.len() < 143_165_574,
        *old(next) < u64::MAX,
        e.is_dir,
    ensures
        ({
            let s = MirrorState {
                added: old(added)@.map_values(|f: NewFloatie| added_view(f)),
                refreshed: refreshed_view(old(refreshed)@),
                on_disk: seq![],
                files: 0,
                dirs: 0,
                next: *old(next) as int,
                occupied: old(occupied)@,
            };
            let spot = slot(first_free_slot(s.occupied));
            let at = (spot.0 as i32, spot.1 as i32);
            let t = match owner(installed@, records@, e.path@) {
                Some(i) => if records@[i].kind@ == "folder"@ {
                    let items = refreshed_items(records@[i].items@, items_view(e.items@));
                    if items_view(records@[i].items@) != items {
                        MirrorState { refreshed: s.refreshed.push((i, items)), ..s }
                    } else {
                        s
                    }
                } else {
                    s
                },
                None => MirrorState {
                    added: s.added.push((id_of("folder"@, s.next + 1), "folder"@, at.0, at.1, e.name@, e.path@, items_view(e.items@))),
                    next: s.next + 1,
                    occupied: s.occupied.push(at),
                    ..s
                },
            };
            &&& final(added)@.map_values(|f: NewFloatie| added_view(f)) == t.added
            &&& refreshed_view(final(refreshed)@) == t.refreshed
            &&& *final(next) as int == t.next
            &&& final(occupied)@ == t.occupied
        }),
        *final(next) <= *old(next) + 1,
        final(occupied)@.len() <= old(occupied)@.len() + 1,
{
    match owner_of(installed, records, &e.path) {
        Some(j) => {
            if chars_eq(&chars_of(records[j].kind.as_str()), &chars_of("folder")) {
                let items = refresh(&records[j].items, &e.items);
                if !same_items(&records[j].items, &items) {
                    let ghost rb = refreshed@;
                    refreshed.push((j, items));
                    assert(refreshed_view(refreshed@) =~= refreshed_view(rb).push((j as int, items_view(refreshed@.last().1@))));
                }
            }
        },
        None => {
            let at = next_pos(occupied);
            *next = *next + 1;
            let f = NewFloatie {
                id: make_id("folder", *next),
                kind: "folder",
                x: at.0,
                y: at.1,
                name: e.name.clone(),
                path: e.path.clone(),
                items: copy_items(&e.items),
            };
            let ghost ab = added@;
            added.push(f);
            assert(added@.map_values(|f: NewFloatie| added_view(f)) =~= ab.map_values(|f: NewFloatie| added_view(f)).push(added_view(added@.last())));
        },
    }
}

fn file_entry(
    installed: &[InstalledPlugin],
    records: &Vec<WidgetRecord>,
    e: &RootEntry,
    added: &mut Vec<NewFloatie>,
    next: &mut u64,
    occupied: &mut Vec<(i32, i32)>,
)
    requires
        old(occupied)@.len() < 143_165_574,
        *old(next) < u64::MAX,
    ensures
        ({
            let spot = slot(first_free_slot(old(occupied)@));
            let at = (spot.0 as i32, spot.1 as i32);
            let kind = kind_for_path_spec(e.path@, false);
            match owner(installed@, records@, e.path@) {
                Some(_) => {
                    &&& final(added)@ == old(added)@
                    &&& *final(next) == *old(next)
                    &&& final(occupied)@ == old(occupied)@
                },
                None => {
                    &&& final(added)@.map_values(|f: NewFloatie| added_view(f)) == old(added)@.map_values(|f: NewFloatie| added_view(f))
                        .push((id_of(kind, *old(next) + 1), kind, at.0, at.1, e.name@, e.path@, seq![]))
                    &&& *final(next) == *old(next) + 1
                    &&& final(occupied)@ == old(occupied)@.push(at)
                },
            }
        }),
{
    match owner_of(installed, records, &e.path) {
        Some(_) => {},
        None => {
            let kind = kind_for_path(e.path.as_str(), false);
            let at = next_pos(occupied);
            *next = *next + 1;
            let f = NewFloatie {
                id: make_id(kind, *next),
                kind,
                x: at.0,
                y: at.1,
                name: e.name.clone(),
                path: e.path.clone(),
                items: Vec::new(),
            };
            assert(items_view(f.items@) =~= Seq::<ItemView>::empty());
            let ghost ab = added@;
            added.push(f);
            assert(added@.map_values(|f: NewFloatie| added_view(f)) =~= ab.map_values(|f: NewFloatie| added_view(f)).push(added_view(added@.last())));
        },
    }
}

/// The records whose file is gone.
#[verifier::rlimit(40)]
fn gone_records(installed: &[InstalledPlugin], root: &str, records: &Vec<WidgetRecord>, on_disk: &Vec<Vec<char>>) -> (r: Vec<usize>)
    ensures
        r@.map_values(|i: usize| i as int) == gone_in(installed@, root@, lowered(on_disk@), records@, records@.len() as int),
{
    let ghost on = lowered(on_disk@);
    let mut vanished: Vec<usize> = Vec::new();
    let mut j: usize = 0;
    while j < records.len()
        invariant
            j <= records.len(),
            on == lowered(on_disk@),
            vanished@.map_values(|i: usize| i as int) == gone_in(installed@, root@, on, records@, j as int),
        decreases records.len() - j,
    {
        let r = &records[j];
        let is_gone = match record_path(installed, r) {
            Some(p) => mirrors_root_entry(root, p.as_str())
                && !lower_contains(on_disk, &to_ascii_lowercase(p.as_str())),
            None => false,
        };
        if is_gone {
            let ghost vb = vanished@;
            vanished.push(j);
            assert(vanished@.map_values(|i: usize| i as int) =~= vb.map_values(|i: usize| i as int).push(j as int));
        }
        j += 1;
    }
    vanished
}

/// Bring the desktop in step with the root's listing.
///
/// `records` are the floaties, in the store's order; `entries` the root's listing, and
/// `complete` whether it ran to the end. New ids count on from `next_id`.
pub fn reconcile(
    installed: &[InstalledPlugin],
    root: &str,
    records: &Vec<WidgetRecord>,
    entries: &Vec<RootEntry>,
    complete: bool,
    next_id: u64,
) -> (r: Reconcile)
    requires
        records@.len() + entries@.len() <= 143_165_574,
        next_id + entries@.len() <= u64::MAX,
    ensures
        ({
            let s = mirror_fold(installed@, records@, start_state(records@, next_id), entries@);
            &&& r.added@.map_values(|f: NewFloatie| added_view(f)) == s.added
            &&& refreshed_view(r.refreshed@) == s.refreshed
            &&& r.files == s.files
            &&& r.dirs == s.dirs
            &&& r.next_id == s.next
            &&& r.vanished@.map_values(|i: usize| i as int) == (if complete {
                gone_in(installed@, root@, s.on_disk, records@, records@.len() as int)
            } else {
                seq![]
            })
        }),
{
    let mut occupied: Vec<(i32, i32)> = Vec::new();
    let mut k: usize = 0;
    while k < records.len()
        invariant
            k <= records.len(),
            occupied@ == positions(records@).take(k as int),
        decreases records.len() - k,
    {
        occupied.push((records[k].x, records[k].y));
        assert(positions(records@).take(k + 1) =~= positions(records@).take(k as int).push((records@[k as int].x, records@[k as int].y)));
        k += 1;
    }
    assert(positions(records@).take(records.len() as int) =~= positions(records@));
    let ghost start = start_state(records@, next_id);
    let mut added: Vec<NewFloatie> = Vec::new();
    let mut refreshed: Vec<(usize, Vec<FolderItem>)> = Vec::new();
    let mut on_disk: Vec<Vec<char>> = Vec::new();
    let mut files: usize = 0;
    let mut dirs: usize = 0;
    let mut next: u64 = next_id;
    proof {
        assert(entries@.take(0) =~= Seq::<RootEntry>::empty());
        assert(added@.map_values(|f: NewFloatie| added_view(f)) =~= Seq::<AddedView>::empty());
        assert(refreshed_view(refreshed@) =~= Seq::<(int, Seq<ItemView>)>::empty());
        assert(lowered(on_disk@) =~= Seq::<Seq<char>>::empty());
        assert(state_of(added@, refreshed@, on_disk@, files, dirs, next, occupied@) == start);
    }
    let mut i: usize = 0;
    while i < entries.len()
        invariant
            i <= entries.len(),
            records@.len() + entries@.len() <= 143_165_574,
            next_id + entries@.len() <= u64::MAX,
            state_of(added@, refreshed@, on_disk@, files, dirs, next, occupied@)
                == mirror_fold(installed@, records@, start, entries@.take(i as int)),
            files + dirs <= i,
            next <= next_id + i,
            occupied@.len() <= records@.len() + i,
        decreases entries.len() - i,
    {
        proof {
            assert(entries@.take(i + 1).drop_last() =~= entries@.take(i as int));
            assert(entries@.take(i + 1).last() == entries@[i as int]);
        }
        step_entry(installed, records, &entries[i], &mut added, &mut refreshed, &mut on_disk, &mut files, &mut dirs, &mut next, &mut occupied);
        i += 1;
    }
    assert(entries@.take(entries.len() as int) =~= entries@);
    let vanished = if complete {
        gone_records(installed, root, records, &on_disk)
    } else {
        let v: Vec<usize> = Vec::new();
        assert(v@.map_values(|i: usize| i as int) =~= Seq::<int>::empty());
        v
    };
    Reconcile { added, refreshed, vanished, files, dirs, next_id: next }
}


// ------------------------------------------------------------------------------------
// What every reconcile keeps
// ------------------------------------------------------------------------------------

/// From spot `k` on, with every earlier spot taken and a free one not far off, there is a
/// first free spot.
proof fn lemma_least_free(occ: Seq<(i32, i32)>, k: nat)
    requires
        forall|j: nat| j < k ==> blocked(occ, j),
        exists|f: nat| k <= f <= occ.len() && !blocked(occ, f),
    ensures
        exists|m: nat| !blocked(occ, m) && forall|j: nat| j < m ==> blocked(occ, j),
    decreases occ.len() - k,
{
    if !blocked(occ, k) {
        assert(!blocked(occ, k) && forall|j: nat| j < k ==> blocked(occ, j));
    } else {
        let f = choose|f: nat| k <= f <= occ.len() && !blocked(occ, f);
        assert(f != k);
        assert forall|j: nat| j < k + 1 implies blocked(occ, j) by {
            if j < k {
            }
        }
        lemma_least_free(occ, k + 1);
    }
}

/// The first free spot is free, and it is one of the first `n + 1`.
proof fn lemma_first_free(occ: Seq<(i32, i32)>)
    ensures
        !blocked(occ, first_free_slot(occ)),
        first_free_slot(occ) <= occ.len(),
{
    lemma_a_free_slot(occ);
    lemma_least_free(occ, 0);
    let f = first_free_slot(occ);
    let w = choose|k: nat| k <= occ.len() && !blocked(occ, k);
    if f > occ.len() {
        assert(blocked(occ, w));
    }
}

/// Where an added floatie stands.
pub open spec fn spot_of(a: AddedView) -> (int, int) {
    (a.2 as int, a.3 as int)
}

pub open spec fn added_positions(a: Seq<AddedView>) -> Seq<(i32, i32)> {
    Seq::new(a.len(), |j: int| (a[j].2, a[j].3))
}

/// One entry applied: either nothing is added, or one floatie, with the next id, on the
/// first free spot.
proof fn lemma_step_ids_and_spots(installed: Seq<InstalledPlugin>, records: Seq<WidgetRecord>, p: MirrorState, e: RootEntry)
    requires
        p.occupied.len() < 143_165_574,
    ensures
        ({
            let s = mirror_step(installed, records, p, e);
            ||| (s.added == p.added && s.next == p.next && s.occupied == p.occupied)
            ||| ({
                let x = s.added.last();
                &&& s.added == p.added.push(x)
                &&& s.next == p.next + 1
                &&& x.0 == id_of(x.1, p.next + 1)
                &&& s.occupied == p.occupied.push((x.2, x.3))
                &&& spot_of(x) == slot(first_free_slot(p.occupied))
            })
        }),
{
    let k = first_free_slot(p.occupied);
    lemma_first_free(p.occupied);
    let spot = slot(k);
    assert(0 <= spot.0 <= 2_147_483_600 && 0 <= spot.1 <= 80 + 115 * 6) by (nonlinear_arith)
        requires
            spot == slot(k),
            k <= 143_165_574,
    {
    }
    let s = mirror_step(installed, records, p, e);
    if s.added.len() != p.added.len() {
        assert(s.added == p.added.push(s.added.last()));
    }
}

/// Ids and spots along a listing: each new floatie takes the next number, and the spot
/// it takes was free when it was taken.
#[verifier::rlimit(80)]
proof fn lemma_fold_ids_and_spots(installed: Seq<InstalledPlugin>, records: Seq<WidgetRecord>, start: MirrorState, es: Seq<RootEntry>)
    requires
        start.added.len() == 0,
        start.occupied.len() + es.len() <= 143_165_574,
    ensures
        ({
            let s = mirror_fold(installed, records, start, es);
            &&& s.added.len() <= es.len()
            &&& s.next == start.next + s.added.len()
            &&& s.occupied == start.occupied + added_positions(s.added)
            &&& forall|j: int| 0 <= j < s.added.len() ==> (#[trigger] s.added[j]).0 == id_of(s.added[j].1, start.next + j + 1)
            &&& forall|j: int, i: int| 0 <= j < s.added.len() && 0 <= i < start.occupied.len() + j
                ==> !near(#[trigger] s.occupied[i], spot_of(#[trigger] s.added[j]))
        }),
    decreases es.len(),
{
    if es.len() == 0 {
        assert(added_positions(start.added) =~= Seq::<(i32, i32)>::empty());
        assert(start.occupied + added_positions(start.added) =~= start.occupied);
    } else {
        let rest = es.drop_last();
        lemma_fold_ids_and_spots(installed, records, start, rest);
        let p = mirror_fold(installed, records, start, rest);
        let s = mirror_fold(installed, records, start, es);
        assert(s == mirror_step(installed, records, p, es.last()));
        lemma_step_ids_and_spots(installed, records, p, es.last());
        if s.added.len() == p.added.len() + 1 {
            let m = p.added.len() as int;
            let k = first_free_slot(p.occupied);
            lemma_first_free(p.occupied);
            let x = s.added.last();
            assert(s.added[m] == x);
            assert(added_positions(s.added) =~= added_positions(p.added).push((x.2, x.3)));
            assert(s.occupied =~= start.occupied + added_positions(s.added));
            assert forall|j: int, i: int| 0 <= j < s.added.len() && 0 <= i < start.occupied.len() + j
                implies !near(#[trigger] s.occupied[i], spot_of(#[trigger] s.added[j])) by {
                assert(s.occupied[i] == p.occupied[i]);
                if j < m {
                    assert(s.added[j] == p.added[j]);
                } else {
                    if near(p.occupied[i], slot(k)) {
                        assert(blocked(p.occupied, k));
                    }
                }
            }
        }
    }
}

/// Along a listing: every entry the desktop shows is in the lowered listing, and either a
/// record already stands for it or a floatie was added for it.
proof fn lemma_fold_accounts(installed: Seq<InstalledPlugin>, records: Seq<WidgetRecord>, start: MirrorState, es: Seq<RootEntry>)
    ensures
        ({
            let s = mirror_fold(installed, records, start, es);
            forall|i: int| 0 <= i < es.len() && !hidden_spec((#[trigger] es[i]).name@) ==> {
                &&& s.on_disk.contains(ascii_lower_seq(es[i].path@))
                &&& (owner(installed, records, es[i].path@) is Some
                    || exists|j: int| 0 <= j < s.added.len() && (#[trigger] s.added[j]).5 == es[i].path@)
            }
        }),
    decreases es.len(),
{
    if es.len() > 0 {
        let rest = es.drop_last();
        let e = es.last();
        lemma_fold_accounts(installed, records, start, rest);
        let p = mirror_fold(installed, records, start, rest);
        let s = mirror_fold(installed, records, start, es);
        assert(s == mirror_step(installed, records, p, e));
        assert(s.on_disk == p.on_disk || s.on_disk == p.on_disk.push(ascii_lower_seq(e.path@)));
        assert(s.added == p.added || s.added == p.added.push(s.added.last()));
        assert forall|i: int| 0 <= i < es.len() && !hidden_spec((#[trigger] es[i]).name@) implies {
            &&& s.on_disk.contains(ascii_lower_seq(es[i].path@))
            &&& (owner(installed, records, es[i].path@) is Some
                || exists|j: int| 0 <= j < s.added.len() && (#[trigger] s.added[j]).5 == es[i].path@)
        } by {
            if i < es.len() - 1 {
                assert(rest[i] == es[i]);
                let k = choose|k: int| 0 <= k < p.on_disk.len() && p.on_disk[k] == ascii_lower_seq(es[i].path@);
                assert(s.on_disk[k] == p.on_disk[k]);
                if owner(installed, records, es[i].path@) is None {
                    let j = choose|j: int| 0 <= j < p.added.len() && (#[trigger] p.added[j]).5 == es[i].path@;
                    assert(s.added[j] == p.added[j]);
                }
            } else {
                assert(es[i] == e);
                assert(s.on_disk.last() == ascii_lower_seq(e.path@));
                assert(s.on_disk[s.on_disk.len() - 1] == ascii_lower_seq(e.path@));
                if owner(installed, records, e.path@) is None {
                    assert(s.added.last().5 == e.path@);
                    assert(s.added[s.added.len() - 1].5 == e.path@);
                }
            }
        }
    }
}

/// The records that vanish among the first `n`: each in range, in order, and each gone.
proof fn lemma_gone_in(installed: Seq<InstalledPlugin>, root: Seq<char>, on_disk: Seq<Seq<char>>, records: Seq<WidgetRecord>, n: int)
    requires
        0 <= n <= records.len(),
    ensures
        ({
            let g = gone_in(installed, root, on_disk, records, n);
            &&& forall|k: int| 0 <= k < g.len() ==> 0 <= #[trigger] g[k] < n && gone(installed, root, on_disk, records[g[k]])
            &&& forall|k: int, l: int| 0 <= k < l < g.len() ==> #[trigger] g[k] < #[trigger] g[l]
        }),
    decreases n,
{
    if n > 0 {
        lemma_gone_in(installed, root, on_disk, records, n - 1);
        let prev = gone_in(installed, root, on_disk, records, n - 1);
        let g = gone_in(installed, root, on_disk, records, n);
        if gone(installed, root, on_disk, records[n - 1]) {
            assert(g == prev.push(n - 1));
            assert forall|k: int| 0 <= k < g.len() implies 0 <= #[trigger] g[k] < n && gone(installed, root, on_disk, records[g[k]]) by {
                if k < prev.len() {
                    assert(g[k] == prev[k]);
                }
            }
            assert forall|k: int, l: int| 0 <= k < l < g.len() implies #[trigger] g[k] < #[trigger] g[l] by {
                assert(g[k] == prev[k]);
                if l < prev.len() {
                    assert(g[l] == prev[l]);
                }
            }
        } else {
            assert(g == prev);
        }
    }
}

/// Each new floatie takes the next id: the `j`th one added is its kind, a hyphen and
/// `next_id + j + 1`, and the counter ends that many past where it began.
pub proof fn new_floaties_take_the_next_ids(installed: Seq<InstalledPlugin>, records: Seq<WidgetRecord>, entries: Seq<RootEntry>, next_id: u64)
    requires
        records.len() + entries.len() <= 143_165_574,
    ensures
        ({
            let s = mirror_fold(installed, records, start_state(records, next_id), entries);
            &&& s.next == next_id + s.added.len()
            &&& forall|j: int| 0 <= j < s.added.len() ==> (#[trigger] s.added[j]).0 == id_of(s.added[j].1, next_id + j + 1)
        }),
{
    lemma_fold_ids_and_spots(installed, records, start_state(records, next_id), entries);
}

/// A new floatie lands on a free spot: more than 50px, on some axis, from every floatie
/// already on the desktop and from every one added before it.
pub proof fn new_floaties_land_on_free_spots(installed: Seq<InstalledPlugin>, records: Seq<WidgetRecord>, entries: Seq<RootEntry>, next_id: u64)
    requires
        records.len() + entries.len() <= 143_165_574,
    ensures
        ({
            let s = mirror_fold(installed, records, start_state(records, next_id), entries);
            &&& forall|j: int, i: int| 0 <= j < s.added.len() && 0 <= i < records.len()
                ==> !near((#[trigger] records[i].x, records[i].y), spot_of(#[trigger] s.added[j]))
            &&& forall|j: int, l: int| 0 <= l < j < s.added.len()
                ==> !near((#[trigger] s.added[l].2, s.added[l].3), spot_of(#[trigger] s.added[j]))
        }),
{
    let start = start_state(records, next_id);
    lemma_fold_ids_and_spots(installed, records, start, entries);
    let s = mirror_fold(installed, records, start, entries);
    let n = records.len() as int;
    assert forall|j: int, i: int| 0 <= j < s.added.len() && 0 <= i < records.len()
        implies !near((#[trigger] records[i].x, records[i].y), spot_of(#[trigger] s.added[j])) by {
        assert(s.occupied[i] == positions(records)[i]);
        assert(!near(s.occupied[i], spot_of(s.added[j])));
    }
    assert forall|j: int, l: int| 0 <= l < j < s.added.len()
        implies !near((#[trigger] s.added[l].2, s.added[l].3), spot_of(#[trigger] s.added[j])) by {
        assert(s.occupied[n + l] == added_positions(s.added)[l]);
        assert(!near(s.occupied[n + l], spot_of(s.added[j])));
    }
}

/// Every entry of the listing that the desktop shows ends up with a floatie: a record that
/// already stood for its path, or one the reconcile adds.
pub proof fn every_listed_entry_has_a_floatie(installed: Seq<InstalledPlugin>, records: Seq<WidgetRecord>, entries: Seq<RootEntry>, next_id: u64)
    ensures
        ({
            let s = mirror_fold(installed, records, start_state(records, next_id), entries);
            forall|i: int| 0 <= i < entries.len() && !hidden_spec((#[trigger] entries[i]).name@) ==>
                owner(installed, records, entries[i].path@) is Some
                || exists|j: int| 0 <= j < s.added.len() && (#[trigger] s.added[j]).5 == entries[i].path@
        }),
{
    lemma_fold_accounts(installed, records, start_state(records, next_id), entries);
}

/// Only what is really gone comes off the desktop: a record the reconcile takes away
/// mirrors an entry of the root, and no entry the listing shows has its path (compared
/// without ASCII case). The list is in the records' order, each named once.
pub proof fn only_missing_entries_vanish(
    installed: Seq<InstalledPlugin>,
    root: Seq<char>,
    records: Seq<WidgetRecord>,
    entries: Seq<RootEntry>,
    next_id: u64,
)
    ensures
        ({
            let s = mirror_fold(installed, records, start_state(records, next_id), entries);
            let g = gone_in(installed, root, s.on_disk, records, records.len() as int);
            &&& forall|k: int| 0 <= k < g.len() ==> {
                &&& 0 <= #[trigger] g[k] < records.len()
                &&& record_path_spec(installed, records[g[k]].kind@, records[g[k]].text@) matches Some(p)
                    && mirrors_root_entry_spec(root, p)
                    && forall|i: int| 0 <= i < entries.len() && !hidden_spec((#[trigger] entries[i]).name@)
                        ==> ascii_lower_seq(entries[i].path@) != ascii_lower_seq(p)
            }
            &&& forall|k: int, l: int| 0 <= k < l < g.len() ==> #[trigger] g[k] < #[trigger] g[l]
        }),
{
    let s = mirror_fold(installed, records, start_state(records, next_id), entries);
    lemma_fold_accounts(installed, records, start_state(records, next_id), entries);
    lemma_gone_in(installed, root, s.on_disk, records, records.len() as int);
}

} // verus!
