//! When to get out of the way: a fullscreen app in front, or nobody at the machine.
//!
//! Two behaviours, because they are worth different things:
//!
//! - **Hidden**: a fullscreen app is in front of a screen, so that screen's desktop is
//!   not on screen at all and its overlay is hidden.
//! - **Quiet**: nobody has touched the machine for a while. The floaties stay where they
//!   are, but the motion, the visualizer and the audio capture stop.
//!
//! Whether the window in front covers a screen is geometry in physical pixels, measured
//! by the caller; what follows from it is decided here.

use vstd::prelude::*;
use crate::text::{chars_of, eq_ignore_ascii_case, eq_ignore_case};

verus! {

/// The window in front, described in the terms the decision cares about.
#[derive(Clone, Copy, Debug)]
pub struct Foreground {
    /// A shell window (the desktop, the taskbar, the start menu): never fullscreen.
    pub shell: bool,
    /// One of our own windows.
    pub ours: bool,
}

/// What we would like the desktop to be doing.
#[derive(Clone, Copy, Debug)]
pub struct State {
    pub hidden: bool,
    pub quiet: bool,
    /// Why, for the log and the diagnostics tab: "fullscreen", "idle", or nothing.
    pub reason: Option<&'static str>,
}

impl Default for State {
    fn default() -> (r: Self)
        ensures
            !r.hidden && !r.quiet && r.reason is None,
    {
        State { hidden: false, quiet: false, reason: None }
    }
}

/// The behaviours the user has switched on, and how long the machine has to be left
/// alone to count as idle.
#[derive(Clone, Copy, Debug)]
pub struct Rules {
    pub hide_for_fullscreen: bool,
    pub quiet_when_idle: bool,
    /// Milliseconds without input; zero means never.
    pub idle_after_ms: u64,
}

impl Default for Rules {
    fn default() -> (r: Self)
        ensures
            r.hide_for_fullscreen && r.quiet_when_idle && r.idle_after_ms == 600_000,
    {
        Rules { hide_for_fullscreen: true, quiet_when_idle: true, idle_after_ms: 600_000 }
    }
}

/// The rules the settings ask for: the idle threshold is whole minutes, ten hours at
/// most.
pub fn rules_from(hide_in_fullscreen: bool, quiet_when_idle: bool, idle_minutes: u32) -> (r: Rules)
    ensures
        r.hide_for_fullscreen == hide_in_fullscreen,
        r.quiet_when_idle == quiet_when_idle,
        r.idle_after_ms == (if idle_minutes < 600 { idle_minutes as int } else { 600 }) * 60_000,
{
    let minutes: u64 = if idle_minutes < 600 { idle_minutes as u64 } else { 600 };
    Rules { hide_for_fullscreen: hide_in_fullscreen, quiet_when_idle, idle_after_ms: minutes * 60_000 }
}

pub open spec fn reason_view(r: Option<&'static str>) -> Option<Seq<char>> {
    match r {
        Some(s) => Some(s@),
        None => None,
    }
}

/// Is the machine idle under these rules? A threshold of zero means never.
pub open spec fn idle_spec(rules: Rules, idle_ms: u64) -> bool {
    rules.quiet_when_idle && rules.idle_after_ms > 0 && idle_ms >= rules.idle_after_ms
}

/// A window that is neither the shell nor ours, covering the screen.
pub open spec fn fullscreen_spec(foreground: Option<Foreground>, covers: Option<bool>, rules: Rules) -> bool {
    &&& rules.hide_for_fullscreen
    &&& covers == Some(true)
    &&& foreground matches Some(f) && !f.shell && !f.ours
}

/// The decision for one screen.
///
/// `covers` is whether the window in front covers this screen (allowing the pixel a
/// borderless window loses to rounding, not a taskbar); nothing when the screen could
/// not be worked out, and then the screen is left alone: hiding the desktop on a guess
/// is worse than leaving it up. A screen that is hidden is also quiet.
pub fn decide_for(foreground: Option<&Foreground>, covers: Option<bool>, rules: &Rules, idle_ms: u64) -> (r: State)
    ensures
        ({
            let fg = match foreground { Some(f) => Some(*f), None => None };
            if fullscreen_spec(fg, covers, *rules) {
                r.hidden && r.quiet && reason_view(r.reason) == Some("fullscreen"@)
            } else {
                &&& !r.hidden
                &&& r.quiet == idle_spec(*rules, idle_ms)
                &&& reason_view(r.reason) == (if idle_spec(*rules, idle_ms) { Some("idle"@) } else { None })
            }
        }),
{
    let foreign = match foreground {
        Some(f) => !f.shell && !f.ours,
        None => false,
    };
    let on_screen = match covers {
        Some(c) => c,
        None => false,
    };
    if rules.hide_for_fullscreen && on_screen && foreign {
        return State { hidden: true, quiet: true, reason: Some("fullscreen") };
    }
    let idle = rules.quiet_when_idle && rules.idle_after_ms > 0 && idle_ms >= rules.idle_after_ms;
    State { hidden: false, quiet: idle, reason: if idle { Some("idle") } else { None } }
}

/// The rule at its simplest: is a fullscreen app in front of any screen? `covers[i]` is
/// whether the window in front covers screen `i`.
pub fn decide(foreground: Option<&Foreground>, covers: &[bool], rules: &Rules, idle_ms: u64) -> (r: State)
    ensures
        ({
            let fg = match foreground { Some(f) => Some(*f), None => None };
            let covered = exists|i: int| 0 <= i < covers@.len() && fullscreen_spec(fg, Some(#[trigger] covers@[i]), *rules);
            let idle = (forall|i: int| 0 <= i < covers@.len() ==> fullscreen_spec(fg, Some(#[trigger] covers@[i]), *rules)
                || idle_spec(*rules, idle_ms)) && !covered;
            &&& r.hidden == covered
            &&& r.quiet == (covered || idle)
            &&& reason_view(r.reason) == (if covered { Some("fullscreen"@) } else if idle { Some("idle"@) } else { None })
        }),
{
    let ghost fg = match foreground { Some(f) => Some(*f), None => None };
    let mut covered = false;
    let mut all_quiet = true;
    let mut i: usize = 0;
    while i < covers.len()
        invariant
            i <= covers.len(),
            fg == (match foreground { Some(f) => Some(*f), None => None }),
            covered == exists|j: int| 0 <= j < i && fullscreen_spec(fg, Some(#[trigger] covers@[j]), *rules),
            all_quiet == forall|j: int| 0 <= j < i ==> fullscreen_spec(fg, Some(#[trigger] covers@[j]), *rules)
                || idle_spec(*rules, idle_ms),
        decreases covers.len() - i,
    {
        let s = decide_for(foreground, Some(covers[i]), rules, idle_ms);
        if s.hidden {
            covered = true;
        }
        if !s.quiet {
            all_quiet = false;
        }
        i += 1;
    }
    let idle = all_quiet && !covered;
    State {
        hidden: covered,
        quiet: covered || idle,
        reason: if covered { Some("fullscreen") } else if idle { Some("idle") } else { None },
    }
}

/// The first reason among the states.
pub open spec fn first_reason(states: Seq<State>) -> Option<Seq<char>>
    decreases states.len(),
{
    if states.len() == 0 {
        None
    } else {
        match reason_view(states[0].reason) {
            Some(r) => Some(r),
            None => first_reason(states.skip(1)),
        }
    }
}

/// One answer for the whole machine, from the per-screen ones.
///
/// `hidden` and `quiet` hold of all screens, not any: the audio capture and the motion
/// are shared, so they stop only when no screen is left that would use them. The reason
/// is the first one given. No screens at all is the calm state.
pub fn summarise(states: &[State]) -> (r: State)
    ensures
        states@.len() == 0 ==> !r.hidden && !r.quiet && r.reason is None,
        states@.len() > 0 ==> {
            &&& r.hidden == forall|i: int| 0 <= i < states@.len() ==> (#[trigger] states@[i]).hidden
            &&& r.quiet == forall|i: int| 0 <= i < states@.len() ==> (#[trigger] states@[i]).quiet
            &&& reason_view(r.reason) == first_reason(states@)
        },
{
    if states.len() == 0 {
        return State::default();
    }
    let mut hidden = true;
    let mut quiet = true;
    let mut reason: Option<&'static str> = None;
    let mut i: usize = states.len();
    while i > 0
        invariant
            i <= states.len(),
            hidden == forall|j: int| i <= j < states@.len() ==> (#[trigger] states@[j]).hidden,
            quiet == forall|j: int| i <= j < states@.len() ==> (#[trigger] states@[j]).quiet,
            reason_view(reason) == first_reason(states@.skip(i as int)),
        decreases i,
    {
        i -= 1;
        let s = &states[i];
        if !s.hidden {
            hidden = false;
        }
        if !s.quiet {
            quiet = false;
        }
        assert(states@.skip(i as int).skip(1) =~= states@.skip(i + 1));
        if s.reason.is_some() {
            reason = s.reason;
        }
    }
    assert(states@.skip(0) =~= states@);
    State { hidden, quiet, reason }
}

pub open spec fn same_state(a: State, b: State) -> bool {
    a.hidden == b.hidden && a.quiet == b.quiet && reason_view(a.reason) == reason_view(b.reason)
}

fn states_equal(a: &State, b: &State) -> (r: bool)
    ensures
        r == same_state(*a, *b),
{
    let same_reason = match (a.reason, b.reason) {
        (Some(x), Some(y)) => crate::text::chars_eq(&chars_of(x), &chars_of(y)),
        (None, None) => true,
        _ => false,
    };
    a.hidden == b.hidden && a.quiet == b.quiet && same_reason
}

/// The state a label had before, if it had one.
pub open spec fn state_before(previous: Seq<(String, State)>, l: Seq<char>) -> Option<State> {
    if exists|j: int| 0 <= j < previous.len() && #[trigger] previous[j].0@ == l {
        Some(previous[choose|j: int| 0 <= j < previous.len() && #[trigger] previous[j].0@ == l
            && forall|k: int| 0 <= k < j ==> previous[k].0@ != l].1)
    } else {
        None
    }
}

/// Did this screen's state change since the last poll?
pub open spec fn changed_spec(previous: Option<Seq<(String, State)>>, entry: (String, State)) -> bool {
    match previous {
        None => true,
        Some(p) => match state_before(p, entry.0@) {
            Some(b) => !same_state(b, entry.1),
            None => true,
        },
    }
}

fn before_of(previous: &Vec<(String, State)>, label: &String) -> (r: Option<usize>)
    ensures
        r matches Some(j) ==> j < previous@.len() && state_before(previous@, label@) == Some(previous@[j as int].1),
        r is None <==> state_before(previous@, label@) is None,
{
    let mut i: usize = 0;
    while i < previous.len()
        invariant
            i <= previous.len(),
            forall|k: int| 0 <= k < i ==> previous@[k].0@ != label@,
        decreases previous.len() - i,
    {
        if previous[i].0 == *label {
            proof {
                let w = choose|j: int| 0 <= j < previous@.len() && #[trigger] previous@[j].0@ == label@
                    && forall|k: int| 0 <= k < j ==> previous@[k].0@ != label@;
                assert(previous@[i as int].0@ == label@);
                assert(w == i) by {
                    if w > i {
                        assert(previous@[i as int].0@ != label@);
                    }
                }
            }
            return Some(i);
        }
        i += 1;
    }
    None
}

/// The screens whose state changed since the last poll, by index: only those are
/// touched, so a fullscreen app on one screen leaves the other screens' windows exactly
/// as they were. Before the first poll every screen counts as changed.
pub fn changed_screens(previous: Option<&Vec<(String, State)>>, states: &Vec<(String, State)>) -> (r: Vec<usize>)
    ensures
        forall|k: int| 0 <= k < r@.len() ==> r@[k] < states@.len(),
        forall|k: int, m: int| 0 <= k < m < r@.len() ==> r@[k] < r@[m],
        forall|i: int| 0 <= i < states@.len() ==> (r@.contains(i as usize) <==> changed_spec(
            match previous { Some(p) => Some(p@), None => None },
            #[trigger] states@[i],
        )),
{
    let ghost prev = match previous { Some(p) => Some(p@), None => None };
    let mut out: Vec<usize> = Vec::new();
    let mut i: usize = 0;
    while i < states.len()
        invariant
            i <= states.len(),
            prev == (match previous { Some(p) => Some(p@), None => None }),
            forall|k: int| 0 <= k < out@.len() ==> out@[k] < i,
            forall|k: int, m: int| 0 <= k < m < out@.len() ==> out@[k] < out@[m],
            forall|j: int| 0 <= j < i ==> (out@.contains(j as usize) <==> changed_spec(prev, #[trigger] states@[j])),
        decreases states.len() - i,
    {
        let changed = match previous {
            None => true,
            Some(p) => match before_of(p, &states[i].0) {
                Some(j) => !states_equal(&p[j].1, &states[i].1),
                None => true,
            },
        };
        let ghost before = out@;
        if changed {
            out.push(i);
        }
        proof {
            assert forall|j: int| 0 <= j < i + 1 implies (out@.contains(j as usize) <==> changed_spec(prev, #[trigger] states@[j])) by {
                if j < i {
                    if out@.contains(j as usize) {
                        let k = choose|k: int| 0 <= k < out@.len() && out@[k] == j as usize;
                        if k < before.len() {
                            assert(before[k] == j as usize);
                        }
                    }
                    if before.contains(j as usize) {
                        let k = choose|k: int| 0 <= k < before.len() && before[k] == j as usize;
                        assert(out@[k] == j as usize);
                    }
                } else {
                    if changed {
                        assert(out@[out@.len() - 1] == i);
                    } else {
                        assert(!before.contains(i as usize));
                    }
                }
            }
        }
        i += 1;
    }
    out
}

/// The shell classes that are never "an app in front": the desktop itself, the taskbar,
/// the start menu and its hosts, the alt-tab overlay, and the staging windows Windows
/// creates for its own bookkeeping.
pub open spec fn shell_classes() -> Seq<Seq<char>> {
    seq![
        "Progman"@,
        "WorkerW"@,
        "Shell_TrayWnd"@,
        "Windows.UI.Core.CoreWindow"@,
        "XamlExplorerHostIslandWindow"@,
        "ForegroundStaging"@,
        "MultitaskingViewFrame"@,
    ]
}

/// Is this window class one of the shell's, compared without ASCII case?
pub fn is_shell_class(class: &str) -> (r: bool)
    ensures
        r == exists|i: int| 0 <= i < shell_classes().len() && eq_ignore_ascii_case(class@, #[trigger] shell_classes()[i]),
{
    let names = [
        "Progman",
        "WorkerW",
        "Shell_TrayWnd",
        "Windows.UI.Core.CoreWindow",
        "XamlExplorerHostIslandWindow",
        "ForegroundStaging",
        "MultitaskingViewFrame",
    ];
    let c = chars_of(class);
    let mut i: usize = 0;
    while i < 7
        invariant
            i <= 7,
            c@ == class@,
            forall|j: int| 0 <= j < 7 ==> names@[j]@ == #[trigger] shell_classes()[j],
            forall|j: int| 0 <= j < i ==> !eq_ignore_ascii_case(class@, #[trigger] shell_classes()[j]),
        decreases 7 - i,
    {
        if eq_ignore_case(&c, &chars_of(names[i])) {
            assert(eq_ignore_ascii_case(class@, shell_classes()[i as int]));
            return true;
        }
        i += 1;
    }
    false
}

/// The rules in force, as last set; the defaults until then.
pub struct RulesSlot {
    rules: Option<Rules>,
}

impl RulesSlot {
    pub fn new() -> (r: Self)
        ensures
            r.current() is None,
    {
        RulesSlot { rules: None }
    }

    pub closed spec fn current(&self) -> Option<Rules> {
        self.rules
    }

    /// Keep these rules, so the watcher does not read the settings every poll.
    pub fn set_presence_rules(&mut self, rules: Rules)
        ensures
            final(self).current() == Some(rules),
    {
        self.rules = Some(rules);
    }

    /// The rules last set, or the defaults.
    pub fn presence_rules(&self) -> (r: Rules)
        ensures
            self.current() matches Some(x) ==> r == x,
            self.current() is None ==> r.hide_for_fullscreen && r.quiet_when_idle && r.idle_after_ms == 600_000,
    {
        match &self.rules {
            Some(r) => Rules { hide_for_fullscreen: r.hide_for_fullscreen, quiet_when_idle: r.quiet_when_idle, idle_after_ms: r.idle_after_ms },
            None => Rules::default(),
        }
    }
}

// ------------------------------------------------------------------------------------
// Laws
// ------------------------------------------------------------------------------------

/// With both behaviours switched off, nothing is hidden and nothing goes quiet, whatever
/// is in front and however long the machine has been left.
pub proof fn rules_off_leave_the_desktop_alone(foreground: Option<Foreground>, covers: Option<bool>, idle_after_ms: u64, idle_ms: u64)
    ensures
        ({
            let off = Rules { hide_for_fullscreen: false, quiet_when_idle: false, idle_after_ms };
            !fullscreen_spec(foreground, covers, off) && !idle_spec(off, idle_ms)
        }),
{
}

/// An idle threshold of zero means never, not immediately.
pub proof fn a_zero_threshold_never_goes_quiet(rules: Rules, idle_ms: u64)
    requires
        rules.idle_after_ms == 0,
    ensures
        !idle_spec(rules, idle_ms),
{
}

/// The shell and our own windows are never a reason to hide.
pub proof fn the_shell_and_our_windows_never_hide(f: Foreground, covers: Option<bool>, rules: Rules)
    requires
        f.shell || f.ours,
    ensures
        !fullscreen_spec(Some(f), covers, rules),
{
}

} // verus!
