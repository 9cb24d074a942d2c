//! Following the pointed root: when a burst of changes is handed to the reconcile, and
//! when the watcher is pointed somewhere else.
//!
//! Events come in bursts (an unzip, a sync client touching metadata), and one reconcile
//! per burst is the point: a burst is handed over once the folder has been quiet for
//! [`QUIET_MS`], and a steady stream is not allowed to defer it past [`MAX_WAIT_MS`].
//! Reading the directory, the clock and the threads are the caller's.

use vstd::prelude::*;
use crate::paths::{join, join_spec};
use crate::text::{chars_eq, chars_of, string_of, trim, trim_spec};
use crate::watch::{renames_view, Batch};

verus! {

broadcast use vstd::seq_lib::group_seq_properties;

/// Quiet period after the last event before the reconcile runs, in ms.
pub const QUIET_MS: u64 = 700;
/// The longest a steady stream of events may defer it, in ms.
pub const MAX_WAIT_MS: u64 = 2500;
/// How long the watcher waits for an event before it looks at its stop flag, in ms.
pub const POLL_MS: u32 = 750;
/// How long to wait before trying a root that is not there again, in ms.
pub const RETRY_MS: u64 = 5000;

/// What a burst hands to the reconcile: the renames, paired old to new as full paths,
/// whether anything was created or deleted, and whether names were lost to an overflow
/// (then the reconcile has to be a full one).
pub struct Burst {
    pub renames: Vec<(String, String)>,
    pub touched: bool,
    pub overflowed: bool,
}

/// The burst being gathered.
pub struct Debounce {
    started: Option<u64>,
    last: u64,
    renames: Vec<(String, String)>,
    touched: bool,
    overflowed: bool,
}

pub struct DebounceView {
    /// When the burst's first event came, if one has.
    pub started: Option<u64>,
    /// When its last event came.
    pub last: u64,
    pub renames: Seq<(Seq<char>, Seq<char>)>,
    pub touched: bool,
    pub overflowed: bool,
}

impl View for Debounce {
    type V = DebounceView;

    closed spec fn view(&self) -> DebounceView {
        DebounceView {
            started: self.started,
            last: self.last,
            renames: renames_view(self.renames@),
            touched: self.touched,
            overflowed: self.overflowed,
        }
    }
}

/// The renames of a batch, as full paths under `root`.
pub open spec fn joined_renames(root: Seq<char>, r: Seq<(Seq<char>, Seq<char>)>) -> Seq<(Seq<char>, Seq<char>)> {
    Seq::new(r.len(), |i: int| (join_spec(root, r[i].0), join_spec(root, r[i].1)))
}

/// `b - a`, or 0 when the clock says `b` came first.
pub open spec fn since(a: u64, b: u64) -> int {
    if a <= b { b - a } else { 0 }
}

/// Is the burst due at `now`: it has begun, and the folder has been quiet long enough, or
/// the burst has waited as long as it may.
pub open spec fn due_spec(d: DebounceView, now: u64) -> bool {
    match d.started {
        Some(s) => since(d.last, now) >= QUIET_MS || since(s, now) >= MAX_WAIT_MS,
        None => false,
    }
}

impl Debounce {
    /// Nothing gathered, the clock at `now`.
    pub fn new(now: u64) -> (r: Self)
        ensures
            r@.started is None && r@.last == now && r@.renames.len() == 0 && !r@.touched && !r@.overflowed,
    {
        let r = Debounce { started: None, last: now, renames: Vec::new(), touched: false, overflowed: false };
        assert(renames_view(r.renames@) =~= Seq::<(Seq<char>, Seq<char>)>::empty());
        r
    }

    /// A batch read at `now`: one that says anything joins the burst (and starts it);
    /// one that says nothing changes nothing.
    pub fn take(&mut self, root: &str, batch: &Batch, now: u64)
        ensures
            (batch.touched || batch.renames@.len() > 0) ==> {
                &&& final(self)@.started == (match old(self)@.started { Some(s) => Some(s), None => Some(now) })
                &&& final(self)@.last == now
                &&& final(self)@.touched == (old(self)@.touched || batch.touched)
                &&& final(self)@.overflowed == (old(self)@.overflowed || batch.overflow)
                &&& final(self)@.renames == old(self)@.renames + joined_renames(root@, renames_view(batch.renames@))
            },
            !(batch.touched || batch.renames@.len() > 0) ==> final(self)@ == old(self)@,
    {
        if !(batch.touched || batch.renames.len() > 0) {
            return;
        }
        if self.started.is_none() {
            self.started = Some(now);
        }
        self.last = now;
        self.touched = self.touched || batch.touched;
        self.overflowed = self.overflowed || batch.overflow;
        let ghost start = renames_view(self.renames@);
        let ghost add = joined_renames(root@, renames_view(batch.renames@));
        let mut i: usize = 0;
        while i < batch.renames.len()
            invariant
                i <= batch.renames@.len(),
                batch.touched || batch.renames@.len() > 0,
                self.started == (match old(self)@.started { Some(s) => Some(s), None => Some(now) }),
                self.last == now,
                self.touched == (old(self)@.touched || batch.touched),
                self.overflowed == (old(self)@.overflowed || batch.overflow),
                start == old(self)@.renames,
                add == joined_renames(root@, renames_view(batch.renames@)),
                renames_view(self.renames@) == start + add.take(i as int),
            decreases batch.renames.len() - i,
        {
            let from = join(root, batch.renames[i].0.as_str());
            let to = join(root, batch.renames[i].1.as_str());
            let ghost before = renames_view(self.renames@);
            self.renames.push((from, to));
            assert(renames_view(self.renames@) =~= before.push((from@, to@)));
            assert(add.take(i + 1) =~= add.take(i as int).push(add[i as int]));
            assert(start + add.take(i + 1) =~= (start + add.take(i as int)).push(add[i as int]));
            i += 1;
        }
        assert(add.take(batch.renames@.len() as int) =~= add);
    }

    /// Is the burst due at `now`?
    pub fn due(&self, now: u64) -> (r: bool)
        ensures
            r == due_spec(self@, now),
    {
        match self.started {
            Some(s) => now.saturating_sub(self.last) >= QUIET_MS || now.saturating_sub(s) >= MAX_WAIT_MS,
            None => false,
        }
    }

    /// Hand the burst over: everything gathered since the last one, in the order it came,
    /// and start afresh.
    pub fn flush(&mut self) -> (b: Burst)
        ensures
            renames_view(b.renames@) == old(self)@.renames,
            b.touched == old(self)@.touched,
            b.overflowed == old(self)@.overflowed,
            final(self)@ == (DebounceView { started: None, renames: seq![], touched: false, overflowed: false, ..old(self)@ }),
    {
        let mut renames: Vec<(String, String)> = Vec::new();
        std::mem::swap(&mut renames, &mut self.renames);
        let b = Burst { renames, touched: self.touched, overflowed: self.overflowed };
        self.started = None;
        self.touched = false;
        self.overflowed = false;
        assert(renames_view(self.renames@) =~= Seq::<(Seq<char>, Seq<char>)>::empty());
        b
    }

    /// At `now`: the burst, when it is due.
    pub fn tick(&mut self, now: u64) -> (r: Option<Burst>)
        ensures
            due_spec(old(self)@, now) ==> (r matches Some(b) && renames_view(b.renames@) == old(self)@.renames
                && b.touched == old(self)@.touched && b.overflowed == old(self)@.overflowed
                && final(self)@ == (DebounceView { started: None, renames: seq![], touched: false, overflowed: false, ..old(self)@ })),
            !due_spec(old(self)@, now) ==> r is None && final(self)@ == old(self)@,
    {
        if self.due(now) {
            Some(self.flush())
        } else {
            None
        }
    }
}

/// A burst is never held past [`MAX_WAIT_MS`] after its first event, and never handed
/// over while events are still coming less than [`QUIET_MS`] apart, unless it has waited
/// that long.
pub proof fn a_burst_waits_for_quiet_but_not_for_ever(d: DebounceView, now: u64)
    ensures
        (d.started matches Some(s) && (s <= now && now - s >= MAX_WAIT_MS)) ==> due_spec(d, now),
        due_spec(d, now) ==> d.started is Some,
        (d.started matches Some(s) && (d.last <= now && now - d.last < QUIET_MS && since(s, now) < MAX_WAIT_MS)) ==> !due_spec(d, now),
{
}

// ------------------------------------------------------------------------------------
// Pointing the watcher
// ------------------------------------------------------------------------------------

/// What pointing the watcher at a root does: stop the one running, start one.
pub struct WatchPlan {
    pub stop_current: bool,
    pub start: Option<String>,
}

/// The root asked for, without surrounding white space; none when that is blank.
pub open spec fn wanted_root(root: Option<Seq<char>>) -> Option<Seq<char>> {
    match root {
        Some(r) => if trim_spec(r).len() > 0 { Some(trim_spec(r)) } else { None },
        None => None,
    }
}

/// Point the watcher at `root` (none: stop watching), the one running (if any) watching
/// `current` and still `alive`. A healthy watcher already on that root is left alone, so
/// every sync can ask.
pub fn retarget_plan(current: Option<&str>, alive: bool, root: Option<&str>) -> (r: WatchPlan)
    ensures
        ({
            let wanted = wanted_root(match root { Some(s) => Some(s@), None => None });
            let cur = match current { Some(c) => Some(c@), None => None };
            if alive && cur is Some && cur == wanted {
                !r.stop_current && r.start is None
            } else {
                &&& r.stop_current == cur is Some
                &&& match wanted {
                    Some(w) => r.start matches Some(s) && s@ == w,
                    None => r.start is None,
                }
            }
        }),
{
    let wanted: Option<Vec<char>> = match root {
        Some(s) => {
            let t = trim(s);
            if t.len() > 0 { Some(t) } else { None }
        },
        None => None,
    };
    let same = match (current, &wanted) {
        (Some(c), Some(w)) => chars_eq(&chars_of(c), w),
        _ => false,
    };
    if alive && same {
        return WatchPlan { stop_current: false, start: None };
    }
    WatchPlan {
        stop_current: current.is_some(),
        start: match wanted {
            Some(w) => Some(string_of(&w)),
            None => None,
        },
    }
}

} // verus!
