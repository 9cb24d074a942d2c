//! The overlay windows and their click-through regions, keyed by window label.
//!
//! `desktop-overlay` is the desktop layer, `top-overlay` holds the widgets pinned above
//! other windows. Each window keeps its own region: a region applied to the wrong
//! window is either a window that swallows every click on the screen or one that cannot
//! be clicked at all. While a window is being dragged over it has no region at all, so
//! the whole screen can take the drag; the rectangles its page sends meanwhile are kept
//! and applied when the drag ends.
//!
//! This module decides which region goes to which window and when; shaping the window
//! is the caller's.

use vstd::prelude::*;
use crate::text::{chars_of, to_string};

verus! {

broadcast use vstd::seq_lib::group_seq_properties;

/// One clickable rectangle of an overlay, in window pixels.
#[derive(Clone, Debug)]
pub struct HitRect {
    pub id: String,
    pub x: i32,
    pub y: i32,
    pub w: i32,
    pub h: i32,
}

/// A rectangle as plain values.
pub type RectView = (Seq<char>, i32, i32, i32, i32);

pub open spec fn rect_view(r: HitRect) -> RectView {
    (r.id@, r.x, r.y, r.w, r.h)
}

pub open spec fn rects_view(v: Seq<HitRect>) -> Seq<RectView> {
    Seq::new(v.len(), |i: int| rect_view(v[i]))
}

/// Do two lists of rectangles say the same thing?
pub fn same_rects(a: &Vec<HitRect>, b: &Vec<HitRect>) -> (r: bool)
    ensures
        r == (rects_view(a@) == rects_view(b@)),
{
    if a.len() != b.len() {
        assert(rects_view(a@).len() != rects_view(b@).len());
        return false;
    }
    let mut i: usize = 0;
    while i < a.len()
        invariant
            i <= a.len() == b.len(),
            forall|j: int| 0 <= j < i ==> rect_view(a@[j]) == rect_view(b@[j]),
        decreases a.len() - i,
    {
        let (p, q) = (&a[i], &b[i]);
        if !(p.id == q.id && p.x == q.x && p.y == q.y && p.w == q.w && p.h == q.h) {
            assert(rects_view(a@)[i as int] != rects_view(b@)[i as int]);
            return false;
        }
        i += 1;
    }
    assert(rects_view(a@) =~= rects_view(b@));
    true
}

/// A copy of a list of rectangles.
pub fn copy_rects(v: &Vec<HitRect>) -> (r: Vec<HitRect>)
    ensures
        rects_view(r@) == rects_view(v@),
{
    let mut out: Vec<HitRect> = Vec::new();
    let mut i: usize = 0;
    while i < v.len()
        invariant
            i <= v.len(),
            rects_view(out@) =~= rects_view(v@).take(i as int),
        decreases v.len() - i,
    {
        let r = &v[i];
        let c = HitRect { id: r.id.clone(), x: r.x, y: r.y, w: r.w, h: r.h };
        assert(rect_view(c) == rect_view(v@[i as int]));
        let ghost before = out@;
        out.push(c);
        assert(rects_view(out@) =~= rects_view(before).push(rect_view(c)));
        assert(rects_view(v@).take(i + 1) =~= rects_view(v@).take(i as int).push(rect_view(v@[i as int])));
        i += 1;
    }
    assert(rects_view(v@).take(v.len() as int) =~= rects_view(v@));
    out
}

// ------------------------------------------------------------------------------------
// Lists keyed by label
// ------------------------------------------------------------------------------------

pub open spec fn keys_distinct<V>(s: Seq<(String, V)>) -> bool {
    forall|i: int, j: int| 0 <= i < s.len() && 0 <= j < s.len() && #[trigger] s[i].0@ == #[trigger] s[j].0@ ==> i == j
}

pub open spec fn has_key<V>(s: Seq<(String, V)>, l: Seq<char>) -> bool {
    exists|i: int| 0 <= i < s.len() && #[trigger] s[i].0@ == l
}

pub open spec fn key_index<V>(s: Seq<(String, V)>, l: Seq<char>) -> int {
    choose|i: int| 0 <= i < s.len() && #[trigger] s[i].0@ == l
}

/// The list as a map from label to the value's view.
pub open spec fn keyed_map<V, W>(s: Seq<(String, V)>, f: spec_fn(V) -> W) -> Map<Seq<char>, W> {
    Map::new(|l: Seq<char>| has_key(s, l), |l: Seq<char>| f(s[key_index(s, l)].1))
}

pub(crate) proof fn lemma_key_index<V>(s: Seq<(String, V)>, i: int)
    requires
        keys_distinct(s),
        0 <= i < s.len(),
    ensures
        has_key(s, s[i].0@),
        key_index(s, s[i].0@) == i,
{
    let l = s[i].0@;
    assert(s[i].0@ == l);
    let k = key_index(s, l);
    assert(s[k].0@ == l);
}

pub(crate) proof fn lemma_keyed_update<V, W>(s: Seq<(String, V)>, i: int, e: (String, V), f: spec_fn(V) -> W)
    requires
        keys_distinct(s),
        0 <= i < s.len(),
        e.0@ == s[i].0@,
    ensures
        keys_distinct(s.update(i, e)),
        keyed_map(s.update(i, e), f) == keyed_map(s, f).insert(e.0@, f(e.1)),
{
    let t = s.update(i, e);
    assert forall|a: int, b: int| 0 <= a < t.len() && 0 <= b < t.len() && #[trigger] t[a].0@ == #[trigger] t[b].0@ implies a == b by {
        assert(s[a].0@ == t[a].0@);
        assert(s[b].0@ == t[b].0@);
    }
    assert forall|l: Seq<char>| #![auto] has_key(t, l) == has_key(s, l) by {
        if has_key(t, l) {
            let a = choose|a: int| 0 <= a < t.len() && #[trigger] t[a].0@ == l;
            assert(s[a].0@ == l);
        }
        if has_key(s, l) {
            let a = choose|a: int| 0 <= a < s.len() && #[trigger] s[a].0@ == l;
            assert(t[a].0@ == l);
        }
    }
    assert forall|l: Seq<char>| has_key(t, l) && l != e.0@ implies #[trigger] t[key_index(t, l)].1 == s[key_index(s, l)].1 by {
        let a = key_index(t, l);
        let b = key_index(s, l);
        assert(t[a].0@ == l);
        assert(s[b].0@ == l);
        assert(a != i);
        assert(s[a].0@ == l);
    }
    lemma_key_index(t, i);
    assert(keyed_map(t, f) =~= keyed_map(s, f).insert(e.0@, f(e.1)));
}

pub(crate) proof fn lemma_keyed_push<V, W>(s: Seq<(String, V)>, e: (String, V), f: spec_fn(V) -> W)
    requires
        keys_distinct(s),
        !has_key(s, e.0@),
    ensures
        keys_distinct(s.push(e)),
        keyed_map(s.push(e), f) == keyed_map(s, f).insert(e.0@, f(e.1)),
{
    let t = s.push(e);
    assert forall|a: int, b: int| 0 <= a < t.len() && 0 <= b < t.len() && #[trigger] t[a].0@ == #[trigger] t[b].0@ implies a == b by {
        if a < s.len() && b < s.len() {
            assert(s[a].0@ == t[a].0@);
            assert(s[b].0@ == t[b].0@);
        } else if a < s.len() {
            assert(s[a].0@ == e.0@);
        } else if b < s.len() {
            assert(s[b].0@ == e.0@);
        }
    }
    assert forall|l: Seq<char>| #![auto] has_key(t, l) == (has_key(s, l) || l == e.0@) by {
        if has_key(t, l) {
            let a = choose|a: int| 0 <= a < t.len() && #[trigger] t[a].0@ == l;
            if a < s.len() {
                assert(s[a].0@ == l);
            }
        }
        if has_key(s, l) {
            let a = choose|a: int| 0 <= a < s.len() && #[trigger] s[a].0@ == l;
            assert(t[a].0@ == l);
        }
        if l == e.0@ {
            assert(t[s.len() as int].0@ == l);
        }
    }
    assert forall|l: Seq<char>| has_key(t, l) && l != e.0@ implies #[trigger] t[key_index(t, l)].1 == s[key_index(s, l)].1 by {
        let a = key_index(t, l);
        let b = key_index(s, l);
        assert(t[a].0@ == l);
        assert(s[b].0@ == l);
        assert(a < s.len());
        assert(s[a].0@ == l);
    }
    lemma_key_index(t, s.len() as int);
    assert(keyed_map(t, f) =~= keyed_map(s, f).insert(e.0@, f(e.1)));
}

/// Where `label` sits in a keyed list.
pub(crate) fn key_pos<V>(s: &Vec<(String, V)>, label: &str) -> (r: Option<usize>)
    ensures
        r matches Some(i) ==> i < s@.len() && s@[i as int].0@ == label@,
        r is None ==> !has_key(s@, label@),
{
    let l = to_string(label);
    let mut i: usize = 0;
    while i < s.len()
        invariant
            i <= s.len(),
            l@ == label@,
            forall|j: int| 0 <= j < i ==> s@[j].0@ != label@,
        decreases s.len() - i,
    {
        if s[i].0 == l {
            return Some(i);
        }
        i += 1;
    }
    None
}

// ------------------------------------------------------------------------------------
// The registry
// ------------------------------------------------------------------------------------

/// The registry as plain values: each label's window handle and region, and the labels
/// being dragged over.
pub struct RegistryView {
    pub hwnds: Map<Seq<char>, isize>,
    pub rects: Map<Seq<char>, Seq<RectView>>,
    pub dragging: Set<Seq<char>>,
}

/// What to do to a window's region.
#[derive(Debug)]
pub enum RegionAction {
    /// Nothing to do.
    Nothing,
    /// Drop the region of this window, so it takes every click.
    Clear(isize),
    /// Shape this window to these rectangles.
    Apply(isize, Vec<HitRect>),
}

pub enum ActionView {
    Nothing,
    Clear(isize),
    Apply(isize, Seq<RectView>),
}

pub open spec fn action_view(a: RegionAction) -> ActionView {
    match a {
        RegionAction::Nothing => ActionView::Nothing,
        RegionAction::Clear(h) => ActionView::Clear(h),
        RegionAction::Apply(h, r) => ActionView::Apply(h, rects_view(r@)),
    }
}

/// The handle a label's window was remembered with, or 0.
pub open spec fn hwnd_of(v: RegistryView, l: Seq<char>) -> isize {
    if v.hwnds.contains_key(l) { v.hwnds[l] } else { 0 }
}

/// The region a label's page last sent, or none.
pub open spec fn rects_of(v: RegistryView, l: Seq<char>) -> Seq<RectView> {
    if v.rects.contains_key(l) { v.rects[l] } else { seq![] }
}

/// Storing `r` as the region of `l`.
pub open spec fn after_set_hit_rects(v: RegistryView, l: Seq<char>, r: Seq<RectView>) -> RegistryView {
    RegistryView { rects: v.rects.insert(l, r), ..v }
}

/// A region is shaped when it changed, nobody is dragging over the window, and the window
/// is known.
pub open spec fn set_hit_rects_action(v: RegistryView, l: Seq<char>, r: Seq<RectView>) -> ActionView {
    let changed = !(v.rects.contains_key(l) && v.rects[l] == r);
    if changed && !v.dragging.contains(l) && hwnd_of(v, l) != 0 {
        ActionView::Apply(hwnd_of(v, l), r)
    } else {
        ActionView::Nothing
    }
}

pub open spec fn after_set_dragging(v: RegistryView, l: Seq<char>, dragging: bool) -> RegistryView {
    RegistryView { dragging: if dragging { v.dragging.insert(l) } else { v.dragging.remove(l) }, ..v }
}

/// A drag clears the window's region; its end puts back the one last sent.
pub open spec fn set_dragging_action(v: RegistryView, l: Seq<char>, dragging: bool) -> ActionView {
    if hwnd_of(v, l) == 0 {
        ActionView::Nothing
    } else if dragging {
        ActionView::Clear(hwnd_of(v, l))
    } else {
        ActionView::Apply(hwnd_of(v, l), rects_of(v, l))
    }
}

/// Is `l` in the list?
pub open spec fn in_list(s: Seq<String>, l: Seq<char>) -> bool {
    exists|i: int| 0 <= i < s.len() && #[trigger] s[i]@ == l
}

proof fn lemma_in_list_push(s: Seq<String>, x: String)
    ensures
        forall|l: Seq<char>| #[trigger] in_list(s.push(x), l) == (in_list(s, l) || x@ == l),
{
    assert forall|l: Seq<char>| #[trigger] in_list(s.push(x), l) == (in_list(s, l) || x@ == l) by {
        if in_list(s.push(x), l) {
            let j = choose|j: int| 0 <= j < s.len() + 1 && #[trigger] s.push(x)[j]@ == l;
            if j < s.len() {
                assert(s[j]@ == l);
            }
        }
        if in_list(s, l) {
            let j = choose|j: int| 0 <= j < s.len() && #[trigger] s[j]@ == l;
            assert(s.push(x)[j]@ == l);
        }
        if x@ == l {
            assert(s.push(x)[s.len() as int]@ == l);
        }
    }
}

/// The overlay windows, their regions, and the ones being dragged over.
pub struct OverlayRegistry {
    hwnds: Vec<(String, isize)>,
    rects: Vec<(String, Vec<HitRect>)>,
    dragging: Vec<String>,
}

impl View for OverlayRegistry {
    type V = RegistryView;

    closed spec fn view(&self) -> RegistryView {
        RegistryView {
            hwnds: keyed_map(self.hwnds@, |h: isize| h),
            rects: keyed_map(self.rects@, |r: Vec<HitRect>| rects_view(r@)),
            dragging: Set::new(|l: Seq<char>| in_list(self.dragging@, l)),
        }
    }
}

impl OverlayRegistry {
    /// Each label appears once in each list.
    pub closed spec fn wf(&self) -> bool {
        keys_distinct(self.hwnds@) && keys_distinct(self.rects@)
    }

    /// No window known yet.
    pub fn new() -> (r: Self)
        ensures
            r.wf(),
            r@.hwnds == Map::<Seq<char>, isize>::empty(),
            r@.rects == Map::<Seq<char>, Seq<RectView>>::empty(),
            r@.dragging == Set::<Seq<char>>::empty(),
    {
        let r = OverlayRegistry { hwnds: Vec::new(), rects: Vec::new(), dragging: Vec::new() };
        assert(r@.hwnds =~= Map::<Seq<char>, isize>::empty());
        assert(r@.rects =~= Map::<Seq<char>, Seq<RectView>>::empty());
        assert(r@.dragging =~= Set::<Seq<char>>::empty());
        r
    }

    /// Remember the window that answers to `label`.
    pub fn remember_hwnd(&mut self, label: &str, hwnd: isize)
        requires
            old(self).wf(),
        ensures
            final(self).wf(),
            final(self)@ == (RegistryView { hwnds: old(self)@.hwnds.insert(label@, hwnd), ..old(self)@ }),
    {
        let ghost f = |h: isize| h;
        match key_pos(&self.hwnds, label) {
            Some(i) => {
                let ghost before = self.hwnds@;
                let name = self.hwnds[i].0.clone();
                self.hwnds.set(i, (name, hwnd));
                proof {
                    lemma_keyed_update(before, i as int, (before[i as int].0, hwnd), f);
                }
            },
            None => {
                let ghost before = self.hwnds@;
                self.hwnds.push((to_string(label), hwnd));
                proof {
                    lemma_keyed_push(before, self.hwnds@.last(), f);
                }
            },
        }
        assert(self@.rects == old(self)@.rects);
        assert(self@.dragging =~= old(self)@.dragging);
    }

    /// The window remembered for `label`, or 0.
    pub fn hwnd_for(&self, label: &str) -> (r: isize)
        requires
            self.wf(),
        ensures
            r == hwnd_of(self@, label@),
    {
        match key_pos(&self.hwnds, label) {
            Some(i) => {
                proof {
                    lemma_key_index(self.hwnds@, i as int);
                }
                self.hwnds[i].1
            },
            None => 0,
        }
    }

    /// The region `label`'s page last sent, or none.
    pub fn rects_for(&self, label: &str) -> (r: Vec<HitRect>)
        requires
            self.wf(),
        ensures
            rects_view(r@) == rects_of(self@, label@),
    {
        match key_pos(&self.rects, label) {
            Some(i) => {
                proof {
                    lemma_key_index(self.rects@, i as int);
                }
                copy_rects(&self.rects[i].1)
            },
            None => {
                let r: Vec<HitRect> = Vec::new();
                assert(rects_view(r@) =~= seq![]);
                r
            },
        }
    }

    /// Is something being dragged over `label`'s window?
    pub fn is_dragging(&self, label: &str) -> (r: bool)
        ensures
            r == self@.dragging.contains(label@),
    {
        let l = to_string(label);
        let mut i: usize = 0;
        while i < self.dragging.len()
            invariant
                i <= self.dragging.len(),
                l@ == label@,
                forall|j: int| 0 <= j < i ==> self.dragging@[j]@ != label@,
            decreases self.dragging.len() - i,
        {
            if self.dragging[i] == l {
                return true;
            }
            i += 1;
        }
        false
    }

    /// Store the region `label`'s page sent, and say whether to shape the window now.
    ///
    /// A region that did not change is not re-applied; one sent during a drag waits for
    /// the drag to end; one for a window not known yet waits for the window.
    pub fn set_hit_rects(&mut self, label: String, rects: Vec<HitRect>) -> (r: RegionAction)
        requires
            old(self).wf(),
        ensures
            final(self).wf(),
            final(self)@ == after_set_hit_rects(old(self)@, label@, rects_view(rects@)),
            action_view(r) == set_hit_rects_action(old(self)@, label@, rects_view(rects@)),
    {
        let ghost f = |r: Vec<HitRect>| rects_view(r@);
        let ghost l = label@;
        let ghost rv = rects_view(rects@);
        let changed = match key_pos(&self.rects, label.as_str()) {
            Some(i) => {
                proof {
                    lemma_key_index(self.rects@, i as int);
                }
                if same_rects(&self.rects[i].1, &rects) {
                    false
                } else {
                    let ghost before = self.rects@;
                    let copy = copy_rects(&rects);
                    let name = self.rects[i].0.clone();
                    self.rects.set(i, (name, copy));
                    proof {
                        lemma_keyed_update(before, i as int, self.rects@[i as int], f);
                    }
                    true
                }
            },
            None => {
                let ghost before = self.rects@;
                let copy = copy_rects(&rects);
                self.rects.push((label.clone(), copy));
                proof {
                    lemma_keyed_push(before, self.rects@.last(), f);
                }
                true
            },
        };
        proof {
            if !changed {
                assert(self@.rects =~= old(self)@.rects.insert(l, rv));
            }
        }
        assert(self@.hwnds == old(self)@.hwnds);
        assert(self@.dragging =~= old(self)@.dragging);
        let hwnd = self.hwnd_for(label.as_str());
        if changed && !self.is_dragging(label.as_str()) && hwnd != 0 {
            RegionAction::Apply(hwnd, rects)
        } else {
            RegionAction::Nothing
        }
    }

    /// Mark `label`'s window as dragged over or not, and say what its region becomes.
    pub fn set_dragging(&mut self, label: String, dragging: bool) -> (r: RegionAction)
        requires
            old(self).wf(),
        ensures
            final(self).wf(),
            final(self)@ == after_set_dragging(old(self)@, label@, dragging),
            action_view(r) == set_dragging_action(old(self)@, label@, dragging),
    {
        let mut kept: Vec<String> = Vec::new();
        let mut i: usize = 0;
        while i < self.dragging.len()
            invariant
                i <= self.dragging.len(),
                !in_list(kept@, label@),
                forall|l: Seq<char>| l != label@ ==> (#[trigger] in_list(kept@, l) <==> in_list(self.dragging@.take(i as int), l)),
            decreases self.dragging.len() - i,
        {
            proof {
                assert(self.dragging@.take(i + 1) =~= self.dragging@.take(i as int).push(self.dragging@[i as int]));
                lemma_in_list_push(self.dragging@.take(i as int), self.dragging@[i as int]);
            }
            if !(self.dragging[i] == label) {
                let s = self.dragging[i].clone();
                proof {
                    lemma_in_list_push(kept@, s);
                }
                kept.push(s);
            }
            i += 1;
        }
        assert(self.dragging@.take(self.dragging.len() as int) =~= self.dragging@);
        if dragging {
            proof {
                lemma_in_list_push(kept@, label);
            }
            kept.push(label.clone());
        }
        let ghost want = if dragging { old(self)@.dragging.insert(label@) } else { old(self)@.dragging.remove(label@) };
        self.dragging = kept;
        assert(self@.dragging =~= want);
        let hwnd = self.hwnd_for(label.as_str());
        if hwnd == 0 {
            RegionAction::Nothing
        } else if dragging {
            RegionAction::Clear(hwnd)
        } else {
            RegionAction::Apply(hwnd, self.rects_for(label.as_str()))
        }
    }

    /// An overlay window was styled: remember it under its label, and hand back the
    /// region its page already sent, if it sent one and the window is real.
    pub fn pin_overlay(&mut self, label: &str, hwnd: isize) -> (r: Option<Vec<HitRect>>)
        requires
            old(self).wf(),
        ensures
            final(self).wf(),
            final(self)@ == (RegistryView { hwnds: old(self)@.hwnds.insert(label@, hwnd), ..old(self)@ }),
            r is Some <==> hwnd != 0 && old(self)@.rects.contains_key(label@),
            r matches Some(v) ==> rects_view(v@) == old(self)@.rects[label@],
    {
        self.remember_hwnd(label, hwnd);
        if hwnd == 0 {
            return None;
        }
        match key_pos(&self.rects, label) {
            Some(i) => {
                proof {
                    lemma_key_index(self.rects@, i as int);
                }
                Some(copy_rects(&self.rects[i].1))
            },
            None => None,
        }
    }
}

/// A region as the corners of its rectangles: the ones with an area, in order. None at
/// all means a window that takes no click anywhere.
pub open spec fn region_spec(rects: Seq<RectView>) -> Seq<(i32, i32, i32, i32)>
    decreases rects.len(),
{
    if rects.len() == 0 {
        seq![]
    } else {
        let rest = region_spec(rects.drop_last());
        let (_, x, y, w, h) = rects.last();
        if w > 0 && h > 0 {
            rest.push((x, y, (x + w) as i32, (y + h) as i32))
        } else {
            rest
        }
    }
}

/// The corners of a region's rectangles.
pub fn region_of(rects: &Vec<HitRect>) -> (r: Vec<(i32, i32, i32, i32)>)
    requires
        forall|i: int| 0 <= i < rects@.len() && (#[trigger] rects@[i]).w > 0 && rects@[i].h > 0 ==> {
            &&& rects@[i].x + rects@[i].w <= i32::MAX
            &&& rects@[i].y + rects@[i].h <= i32::MAX
        },
    ensures
        r@ == region_spec(rects_view(rects@)),
{
    let mut out: Vec<(i32, i32, i32, i32)> = Vec::new();
    let mut i: usize = 0;
    while i < rects.len()
        invariant
            i <= rects.len(),
            forall|i: int| 0 <= i < rects@.len() && (#[trigger] rects@[i]).w > 0 && rects@[i].h > 0 ==> {
                &&& rects@[i].x + rects@[i].w <= i32::MAX
                &&& rects@[i].y + rects@[i].h <= i32::MAX
            },
            out@ == region_spec(rects_view(rects@).take(i as int)),
        decreases rects.len() - i,
    {
        let r = &rects[i];
        assert(rects_view(rects@).take(i + 1).drop_last() =~= rects_view(rects@).take(i as int));
        if r.w > 0 && r.h > 0 {
            out.push((r.x, r.y, r.x + r.w, r.y + r.h));
        }
        i += 1;
    }
    assert(rects_view(rects@).take(rects.len() as int) =~= rects_view(rects@));
    out
}

// ------------------------------------------------------------------------------------
// Laws
// ------------------------------------------------------------------------------------

/// A region stored for one window is the one that window reads back, and every other
/// window keeps its own.
pub proof fn each_window_keeps_its_own_region(v: RegistryView, l: Seq<char>, r: Seq<RectView>, other: Seq<char>)
    ensures
        rects_of(after_set_hit_rects(v, l, r), l) == r,
        other != l ==> rects_of(after_set_hit_rects(v, l, r), other) == rects_of(v, other),
{
}

/// Sending the same region twice shapes the window at most once: the second send
/// changes nothing and asks for nothing.
pub proof fn resending_a_region_does_nothing(v: RegistryView, l: Seq<char>, r: Seq<RectView>)
    ensures
        after_set_hit_rects(after_set_hit_rects(v, l, r), l, r) == after_set_hit_rects(v, l, r),
        set_hit_rects_action(after_set_hit_rects(v, l, r), l, r) == ActionView::Nothing,
{
    assert(after_set_hit_rects(v, l, r).rects.insert(l, r) =~= after_set_hit_rects(v, l, r).rects);
}

/// A region sent while the window is dragged over is not applied then, and is the one
/// applied when the drag ends.
pub proof fn a_drag_defers_the_region(v: RegistryView, l: Seq<char>, r: Seq<RectView>)
    requires
        hwnd_of(v, l) != 0,
    ensures
        set_dragging_action(v, l, true) == ActionView::Clear(hwnd_of(v, l)),
        set_hit_rects_action(after_set_dragging(v, l, true), l, r) == ActionView::Nothing,
        set_dragging_action(after_set_hit_rects(after_set_dragging(v, l, true), l, r), l, false)
            == ActionView::Apply(hwnd_of(v, l), r),
{
}

} // verus!
