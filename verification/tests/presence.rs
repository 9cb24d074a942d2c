use floaty::presence::{
    changed_screens, decide, decide_for, is_shell_class, rules_from, summarise, Foreground, Rules,
    RulesSlot, State,
};

fn rules() -> Rules {
    Rules::default()
}

fn app() -> Foreground {
    Foreground { shell: false, ours: false }
}

#[test]
fn a_fullscreen_app_hides_the_desktop() {
    let state = decide(Some(&app()), &[true, false], &rules(), 0);
    assert!(state.hidden && state.quiet);
    assert_eq!(state.reason, Some("fullscreen"));
    assert_eq!(decide(Some(&app()), &[false, true], &rules(), 0).reason, Some("fullscreen"));
}

#[test]
fn a_fullscreen_app_takes_only_its_own_screen() {
    let first = decide_for(Some(&app()), Some(false), &rules(), 0);
    let second = decide_for(Some(&app()), Some(true), &rules(), 0);
    assert!(!first.hidden, "a fullscreen app on the other screen must not hide this one");
    assert!(second.hidden, "the screen it is on goes away");
    assert!(!decide_for(Some(&app()), None, &rules(), 0).hidden);
}

#[test]
fn the_machine_goes_quiet_only_when_no_screen_is_left() {
    let one = summarise(&[
        decide_for(Some(&app()), Some(false), &rules(), 0),
        decide_for(Some(&app()), Some(true), &rules(), 0),
    ]);
    assert!(!one.hidden && !one.quiet, "one screen left is enough to keep the audio");
    assert_eq!(one.reason, Some("fullscreen"));
    let all = summarise(&[
        decide_for(Some(&app()), Some(true), &rules(), 0),
        decide_for(Some(&app()), Some(true), &rules(), 0),
    ]);
    assert!(all.hidden && all.quiet);
    let idle = summarise(&[
        decide_for(None, Some(false), &rules(), 600_000),
        decide_for(None, Some(false), &rules(), 600_000),
    ]);
    assert!(!idle.hidden && idle.quiet);
    assert_eq!(idle.reason, Some("idle"));
    let none = summarise(&[]);
    assert!(!none.hidden && !none.quiet && none.reason.is_none());
}

#[test]
fn the_shell_and_our_own_windows_are_never_a_reason_to_hide() {
    let shell = Foreground { shell: true, ours: false };
    assert!(!decide(Some(&shell), &[true, true], &rules(), 0).hidden);
    let ours = Foreground { shell: false, ours: true };
    assert!(!decide(Some(&ours), &[true, true], &rules(), 0).hidden);
    assert!(!decide(None, &[true, true], &rules(), 0).hidden);
    assert!(is_shell_class("Progman") && is_shell_class("workerw"));
    assert!(!is_shell_class("Chrome_WidgetWin_1"));
}

#[test]
fn idle_goes_quiet_without_hiding_anything() {
    let state = decide(None, &[false, false], &rules(), 600_000);
    assert!(!state.hidden);
    assert!(state.quiet);
    assert_eq!(state.reason, Some("idle"));
    assert!(!decide(None, &[false, false], &rules(), 599_999).quiet);
}

#[test]
fn the_rules_turn_both_behaviours_off() {
    let off = Rules { hide_for_fullscreen: false, quiet_when_idle: false, idle_after_ms: 600_000 };
    let state = decide(Some(&app()), &[true, false], &off, 10_000_000);
    assert!(!state.hidden && !state.quiet);
    let zero = Rules { idle_after_ms: 0, ..rules() };
    assert!(!decide(None, &[false, false], &zero, u64::MAX).quiet);
}

#[test]
fn a_fullscreen_app_wins_over_idle() {
    assert_eq!(decide(Some(&app()), &[true, false], &rules(), 10_000_000).reason, Some("fullscreen"));
}

#[test]
fn the_settings_give_the_rules() {
    let r = rules_from(true, false, 15);
    assert!(r.hide_for_fullscreen && !r.quiet_when_idle);
    assert_eq!(r.idle_after_ms, 15 * 60_000);
    assert_eq!(rules_from(true, true, 100_000).idle_after_ms, 600 * 60_000);
    let mut slot = RulesSlot::new();
    assert_eq!(slot.presence_rules().idle_after_ms, 600_000);
    slot.set_presence_rules(r);
    assert!(!slot.presence_rules().quiet_when_idle);
}

#[test]
fn only_the_screens_that_changed_are_touched() {
    let calm = State { hidden: false, quiet: false, reason: None };
    let hidden = State { hidden: true, quiet: true, reason: Some("fullscreen") };
    let before = vec![("desktop-overlay".to_string(), calm), ("desktop-overlay-1".to_string(), calm)];
    let now = vec![("desktop-overlay".to_string(), calm), ("desktop-overlay-1".to_string(), hidden)];
    assert_eq!(changed_screens(Some(&before), &now), vec![1]);
    assert_eq!(changed_screens(None, &now), vec![0, 1]);
    assert_eq!(changed_screens(Some(&now), &now), Vec::<usize>::new());
}
