use floaty::pinning::{
    cleanup_hook, message_policy, ordinary_window_style, to_wide, tool_window_style, ArrangementGate,
    PinSettings, WindowMessage, PBT_APMRESUMESUSPEND, PBT_POWERSETTINGCHANGE, SC_MINIMIZE,
    SIZE_MINIMIZED, WM_DISPLAYCHANGE, WM_NCPAINT, WM_POWERBROADCAST, WM_SIZE, WM_SYSCOMMAND,
    WM_WINDOWPOSCHANGING, WS_EX_APPWINDOW, WS_EX_TOOLWINDOW,
};

fn msg(msg: u32, wparam: usize) -> WindowMessage {
    WindowMessage { msg, wparam, lparam_nonzero: true, display_on: false }
}

#[test]
fn the_desktop_layer_cannot_be_minimized_while_it_stays_on_the_desktop() {
    let p = message_policy(&msg(WM_SYSCOMMAND, SC_MINIMIZE | 2), true, true);
    assert_eq!(p.answer, Some(0));
    let p = message_policy(&msg(WM_SIZE, SIZE_MINIMIZED), true, true);
    assert!(p.restore && p.answer == Some(0));
    let p = message_policy(&msg(WM_WINDOWPOSCHANGING, 0), true, true);
    assert!(p.strip_hide && p.keep_tool_window && p.answer.is_none());
    let off = message_policy(&msg(WM_SYSCOMMAND, SC_MINIMIZE), true, false);
    assert_eq!(off.answer, None);
}

#[test]
fn an_ordinary_window_is_left_to_windows() {
    for m in [msg(WM_SYSCOMMAND, SC_MINIMIZE), msg(WM_WINDOWPOSCHANGING, 0), msg(WM_NCPAINT, 0)] {
        let p = message_policy(&m, false, true);
        assert!(!p.keep_tool_window && !p.strip_hide && !p.restore && p.answer.is_none());
    }
    assert_eq!(message_policy(&msg(WM_NCPAINT, 0), true, false).answer, Some(0));
}

#[test]
fn every_window_hears_about_sleep_and_the_displays() {
    let p = message_policy(&msg(WM_POWERBROADCAST, PBT_APMRESUMESUSPEND), false, false);
    assert_eq!((p.recover, p.answer), (Some("woke from sleep"), Some(1)));
    let on = WindowMessage { msg: WM_POWERBROADCAST, wparam: PBT_POWERSETTINGCHANGE, lparam_nonzero: true, display_on: true };
    assert_eq!(message_policy(&on, false, false).recover, Some("display back on"));
    let off = WindowMessage { display_on: false, ..on };
    assert_eq!(message_policy(&off, false, false).answer, None);
    assert!(message_policy(&msg(WM_DISPLAYCHANGE, 0), false, false).arrangement_changed);
}

#[test]
fn one_arrangement_change_is_one_reconcile() {
    let mut gate = ArrangementGate::new();
    assert!(gate.display_arrangement_changed(5_000));
    assert!(!gate.display_arrangement_changed(5_010));
    assert!(!gate.display_arrangement_changed(6_500));
    assert!(gate.display_arrangement_changed(9_000));
}

#[test]
fn styles_and_wide_strings() {
    assert_eq!(tool_window_style(WS_EX_APPWINDOW), Some(WS_EX_TOOLWINDOW));
    assert_eq!(tool_window_style(WS_EX_TOOLWINDOW | 1), None);
    assert_eq!(ordinary_window_style(WS_EX_TOOLWINDOW), Some(WS_EX_APPWINDOW));
    assert_eq!(ordinary_window_style(WS_EX_APPWINDOW), None);
    assert_eq!(to_wide("Progman"), "Progman".encode_utf16().chain(std::iter::once(0)).collect::<Vec<u16>>());
    let s = "a\u{e9}\u{1F600}z";
    assert_eq!(to_wide(s), s.encode_utf16().chain(std::iter::once(0)).collect::<Vec<u16>>());
    let mut pin = PinSettings::new();
    assert!(pin.stay_on_desktop());
    pin.set_stay_on_desktop_global(false);
    assert!(!pin.stay_on_desktop());
    cleanup_hook();
}
