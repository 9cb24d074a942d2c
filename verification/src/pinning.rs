//! Keeping the desktop layer on the desktop: what the window procedure of a floaty
//! window does with each message, and when a change of the display arrangement is worth
//! a reconcile.
//!
//! The desktop-layer policy is only for the windows that *are* the desktop (the
//! overlays and the one-window-per-widget floaties). Applied to an ordinary window such
//! as settings, it strips the taskbar button on the first drag step and swallows the
//! minimize button; so an ordinary window only ever gets the sleep and display
//! notifications. The Win32 calls that carry the answers out are the caller's.

use vstd::prelude::*;
use crate::text::push_utf16;

verus! {

pub const WM_SIZE: u32 = 0x0005;
pub const WM_ERASEBKGND: u32 = 0x0014;
pub const WM_WINDOWPOSCHANGING: u32 = 0x0046;
pub const WM_DISPLAYCHANGE: u32 = 0x007E;
pub const WM_NCCALCSIZE: u32 = 0x0083;
pub const WM_NCPAINT: u32 = 0x0085;
pub const WM_NCACTIVATE: u32 = 0x0086;
pub const WM_SYSCOMMAND: u32 = 0x0112;
pub const WM_POWERBROADCAST: u32 = 0x0218;
pub const SC_MINIMIZE: usize = 0xF020;
pub const SIZE_MINIMIZED: usize = 1;
pub const PBT_APMRESUMECRITICAL: usize = 0x0006;
pub const PBT_APMRESUMESUSPEND: usize = 0x0007;
pub const PBT_APMRESUMEAUTOMATIC: usize = 0x0012;
pub const PBT_POWERSETTINGCHANGE: usize = 0x8013;
pub const WS_EX_TOOLWINDOW: isize = 0x0000_0080;
pub const WS_EX_APPWINDOW: isize = 0x0004_0000;

/// One message, as the window procedure received it. `display_on` is whether a power
/// setting change says the console display just came on.
pub struct WindowMessage {
    pub msg: u32,
    pub wparam: usize,
    pub lparam_nonzero: bool,
    pub display_on: bool,
}

/// What the window procedure does with a message.
pub struct MessagePolicy {
    /// Re-assert the tool-window style, so the taskbar never shows the window.
    pub keep_tool_window: bool,
    /// The display arrangement changed: fit everything to it, on a thread of its own.
    pub arrangement_changed: bool,
    /// Put the app back together after sleep, on a thread of its own, saying why.
    pub recover: Option<&'static str>,
    /// Take the hide flag out of the position change Windows is about to make.
    pub strip_hide: bool,
    /// Restore the window that was just minimized.
    pub restore: bool,
    /// The answer to give, or nothing to pass the message on.
    pub answer: Option<isize>,
}

/// A power broadcast that means the machine woke up or its display came back.
pub open spec fn recover_spec(m: WindowMessage) -> Option<Seq<char>> {
    if m.msg != WM_POWERBROADCAST {
        None
    } else if m.wparam == PBT_POWERSETTINGCHANGE && m.lparam_nonzero {
        if m.display_on { Some("display back on"@) } else { None }
    } else if m.wparam == PBT_APMRESUMEAUTOMATIC || m.wparam == PBT_APMRESUMESUSPEND || m.wparam == PBT_APMRESUMECRITICAL {
        Some("woke from sleep"@)
    } else {
        None
    }
}

/// The desktop layer, staying on the desktop: no minimize, no hide, no minimized state.
pub open spec fn pinned_answer(m: WindowMessage) -> Option<isize> {
    if m.msg == WM_SYSCOMMAND && m.wparam & 0xFFF0 == SC_MINIMIZE {
        Some(0)
    } else if m.msg == WM_SIZE && m.wparam == SIZE_MINIMIZED {
        Some(0)
    } else {
        None
    }
}

/// The desktop layer has no frame: the non-client messages and the background erase
/// are answered here.
pub open spec fn frameless_answer(msg: u32) -> Option<isize> {
    if msg == WM_NCCALCSIZE || msg == WM_NCPAINT {
        Some(0)
    } else if msg == WM_NCACTIVATE || msg == WM_ERASEBKGND {
        Some(1)
    } else {
        None
    }
}

pub open spec fn answer_spec(m: WindowMessage, desktop_layer: bool, stay_on_desktop: bool) -> Option<isize> {
    if recover_spec(m) is Some {
        Some(1)
    } else if desktop_layer && stay_on_desktop && pinned_answer(m) is Some {
        pinned_answer(m)
    } else if desktop_layer {
        frameless_answer(m.msg)
    } else {
        None
    }
}

pub open spec fn text_of(r: Option<&'static str>) -> Option<Seq<char>> {
    match r {
        Some(s) => Some(s@),
        None => None,
    }
}

/// What the window procedure of a floaty window does with `m`.
pub fn message_policy(m: &WindowMessage, desktop_layer: bool, stay_on_desktop: bool) -> (r: MessagePolicy)
    ensures
        r.keep_tool_window == (desktop_layer && m.msg == WM_WINDOWPOSCHANGING),
        r.arrangement_changed == (m.msg == WM_DISPLAYCHANGE),
        text_of(r.recover) == recover_spec(*m),
        r.strip_hide == (desktop_layer && stay_on_desktop && m.msg == WM_WINDOWPOSCHANGING && m.lparam_nonzero),
        r.restore == (desktop_layer && stay_on_desktop && m.msg == WM_SIZE && m.wparam == SIZE_MINIMIZED),
        r.answer == answer_spec(*m, desktop_layer, stay_on_desktop),
{
    let mut r = MessagePolicy {
        keep_tool_window: desktop_layer && m.msg == WM_WINDOWPOSCHANGING,
        arrangement_changed: m.msg == WM_DISPLAYCHANGE,
        recover: None,
        strip_hide: false,
        restore: false,
        answer: None,
    };
    if m.msg == WM_POWERBROADCAST {
        if m.wparam == PBT_POWERSETTINGCHANGE && m.lparam_nonzero {
            if m.display_on {
                r.recover = Some("display back on");
                r.answer = Some(1);
                return r;
            }
        } else if m.wparam == PBT_APMRESUMEAUTOMATIC || m.wparam == PBT_APMRESUMESUSPEND
            || m.wparam == PBT_APMRESUMECRITICAL {
            r.recover = Some("woke from sleep");
            r.answer = Some(1);
            return r;
        }
    }
    if desktop_layer && stay_on_desktop {
        if m.msg == WM_SYSCOMMAND && m.wparam & 0xFFF0 == SC_MINIMIZE {
            r.answer = Some(0);
            return r;
        }
        if m.msg == WM_WINDOWPOSCHANGING && m.lparam_nonzero {
            r.strip_hide = true;
        }
        if m.msg == WM_SIZE && m.wparam == SIZE_MINIMIZED {
            r.restore = true;
            r.answer = Some(0);
            return r;
        }
    }
    if desktop_layer {
        if m.msg == WM_NCCALCSIZE || m.msg == WM_NCPAINT {
            r.answer = Some(0);
            return r;
        }
        if m.msg == WM_NCACTIVATE || m.msg == WM_ERASEBKGND {
            r.answer = Some(1);
            return r;
        }
    }
    r
}

/// The extended style of a desktop-layer window: a tool window, never an app window, so
/// the taskbar never shows it. Nothing when it already is one.
pub fn tool_window_style(ex_style: isize) -> (r: Option<isize>)
    ensures
        (ex_style & WS_EX_TOOLWINDOW) == 0 || (ex_style & WS_EX_APPWINDOW) != 0
            ==> r == Some((ex_style | WS_EX_TOOLWINDOW) & !WS_EX_APPWINDOW),
        !((ex_style & WS_EX_TOOLWINDOW) == 0 || (ex_style & WS_EX_APPWINDOW) != 0) ==> r is None,
{
    if (ex_style & WS_EX_TOOLWINDOW) == 0 || (ex_style & WS_EX_APPWINDOW) != 0 {
        Some((ex_style | WS_EX_TOOLWINDOW) & !WS_EX_APPWINDOW)
    } else {
        None
    }
}

/// The extended style of an ordinary window handed back to the shell: an app window with
/// a taskbar button. Nothing when it already is one.
pub fn ordinary_window_style(ex_style: isize) -> (r: Option<isize>)
    ensures
        ((ex_style & !WS_EX_TOOLWINDOW) | WS_EX_APPWINDOW) != ex_style
            ==> r == Some((ex_style & !WS_EX_TOOLWINDOW) | WS_EX_APPWINDOW),
        ((ex_style & !WS_EX_TOOLWINDOW) | WS_EX_APPWINDOW) == ex_style ==> r is None,
{
    let wanted = (ex_style & !WS_EX_TOOLWINDOW) | WS_EX_APPWINDOW;
    if wanted != ex_style { Some(wanted) } else { None }
}

/// Whether the desktop layer stays put when Show Desktop (Win+D) is pressed.
pub struct PinSettings {
    stay_on_desktop: bool,
}

impl PinSettings {
    /// On, until the settings say otherwise.
    pub fn new() -> (r: Self)
        ensures
            r.stay_on_desktop_active(),
    {
        PinSettings { stay_on_desktop: true }
    }

    pub closed spec fn stay_on_desktop_active(&self) -> bool {
        self.stay_on_desktop
    }

    pub fn set_stay_on_desktop_global(&mut self, active: bool)
        ensures
            final(self).stay_on_desktop_active() == active,
    {
        self.stay_on_desktop = active;
    }

    pub fn stay_on_desktop(&self) -> (r: bool)
        ensures
            r == self.stay_on_desktop_active(),
    {
        self.stay_on_desktop
    }
}

/// The subclass goes with its window, so there is nothing to undo.
pub fn cleanup_hook() {
}

/// `s` as a NUL-terminated wide string.
pub fn to_wide(s: &str) -> (r: Vec<u16>)
    ensures
        r@ == crate::text::utf16_encode(s@).push(0),
{
    let mut out: Vec<u16> = Vec::new();
    push_utf16(&mut out, s);
    out.push(0);
    out
}

// ------------------------------------------------------------------------------------
// The display arrangement
// ------------------------------------------------------------------------------------

/// Every top-level window is told when the display arrangement changes (five of ours
/// means five messages), and one change is one job: a change within this long of the
/// last one is the same change. Short enough that a second, real change still counts.
pub const ARRANGEMENT_QUIET_MS: u64 = 2_000;

/// A change at `now` after one at `last` is a new one.
pub open spec fn is_new_change(last: u64, now: u64) -> bool {
    now >= last + ARRANGEMENT_QUIET_MS
}

/// When the arrangement last changed, in milliseconds since the app started.
pub struct ArrangementGate {
    last: u64,
}

impl ArrangementGate {
    pub fn new() -> (r: Self)
        ensures
            r.last_change() == 0,
    {
        ArrangementGate { last: 0 }
    }

    pub closed spec fn last_change(&self) -> u64 {
        self.last
    }

    /// The arrangement changed at `now`: is this a new change worth a reconcile?
    pub fn display_arrangement_changed(&mut self, now: u64) -> (reconcile: bool)
        ensures
            final(self).last_change() == now,
            reconcile == is_new_change(old(self).last_change(), now),
    {
        let previous = self.last;
        self.last = now;
        now.saturating_sub(previous) >= ARRANGEMENT_QUIET_MS
    }
}

// ------------------------------------------------------------------------------------
// Laws
// ------------------------------------------------------------------------------------

/// An ordinary window is left to Windows: no style, no hide flag, no restore, and no
/// answer but to the sleep and display notifications every window gets.
pub proof fn an_ordinary_window_is_left_alone(m: WindowMessage, stay_on_desktop: bool)
    requires
        recover_spec(m) is None,
    ensures
        answer_spec(m, false, stay_on_desktop) is None,
{
}

/// With stay-on-desktop on, a minimize never reaches a desktop-layer window.
pub proof fn the_desktop_layer_is_never_minimized(m: WindowMessage)
    requires
        m.msg == WM_SYSCOMMAND,
        m.wparam & 0xFFF0 == SC_MINIMIZE,
    ensures
        answer_spec(m, true, true) == Some(0isize),
{
}

/// Two notices of one arrangement change, closer together than the quiet period, make
/// one reconcile.
pub proof fn one_change_is_one_reconcile(first: u64, second: u64)
    requires
        first <= second < first + ARRANGEMENT_QUIET_MS,
    ensures
        !is_new_change(first, second),
{
}

} // verus!
