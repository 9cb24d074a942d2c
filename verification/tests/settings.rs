use floaty::settings::{
    default_animation_mode, default_confirm_remove, default_double_click, default_icon_pipeline,
    default_idle_minutes, default_palette_shortcut, default_single_click, default_start_on_boot,
    default_stay_on_desktop, default_true, icons_need_refresh, ICON_PIPELINE,
};

#[test]
fn an_old_settings_file_reads_as_the_defaults() {
    assert_eq!(default_palette_shortcut(), "Ctrl+Alt+Space");
    assert!(default_true());
    assert_eq!(default_idle_minutes(), 10);
    assert_eq!(default_icon_pipeline(), 0);
    assert!(default_stay_on_desktop());
    assert!(!default_start_on_boot(), "a file without the field means off");
    assert!(default_confirm_remove());
    assert_eq!(default_animation_mode(), "wave");
    assert_eq!(default_single_click(), "drop");
    assert_eq!(default_double_click(), "launch");
    assert!(icons_need_refresh(default_icon_pipeline()));
    assert!(!icons_need_refresh(ICON_PIPELINE));
}

use floaty::settings::{
    animation_mode_of, double_click_action, parse_shortcut, settle_choices, single_click_action, trimmed_differ, Choices,
};

fn choices(shortcut: &str, idle: u32, pipeline: u32, boot: bool) -> Choices {
    Choices {
        single_click: "hop".to_string(),
        double_click: "whatever".to_string(),
        animation_mode: "gentle".to_string(),
        palette_shortcut: shortcut.to_string(),
        idle_minutes: idle,
        icon_pipeline: pipeline,
        start_on_boot: boot,
    }
}

#[test]
fn unknown_actions_and_modes_fall_back_to_the_defaults() {
    assert_eq!(single_click_action("hop"), "hop");
    assert_eq!(single_click_action("nothing"), "nothing");
    assert_eq!(single_click_action("launch"), "drop");
    assert_eq!(double_click_action("drop"), "drop");
    assert_eq!(double_click_action(""), "launch");
    assert_eq!(animation_mode_of("static"), "static");
    assert_eq!(animation_mode_of("Wave"), "wave");
}

#[test]
fn a_launcher_key_that_does_not_parse_is_not_saved() {
    assert_eq!(parse_shortcut("  Ctrl+Alt+K ", true).as_deref(), Some("Ctrl+Alt+K"));
    assert_eq!(parse_shortcut("   ", true), None);
    assert_eq!(parse_shortcut("Ctrl+Nope", false), None);

    let stored = choices("Ctrl+Alt+Space", 10, 4, false);
    let kept = settle_choices(&choices("Ctrl+Nope", 30, 2, false), &stored, false, true);
    assert_eq!(kept.palette_shortcut, "Ctrl+Alt+Space");
    assert_eq!(kept.single_click, "hop");
    assert_eq!(kept.double_click, "launch");
    assert_eq!(kept.animation_mode, "gentle");
    assert_eq!(kept.idle_minutes, 30);
    assert_eq!(kept.icon_pipeline, 4, "the pipeline never goes back");

    let taken = settle_choices(&choices(" Ctrl+Alt+K ", 6000, 9, true), &stored, true, false);
    assert_eq!(taken.palette_shortcut, "Ctrl+Alt+K");
    assert_eq!(taken.idle_minutes, 600, "ten hours is a typo");
    assert_eq!(taken.icon_pipeline, 9);
    assert!(!taken.start_on_boot, "Windows did not take the Run entry");
    assert!(settle_choices(&choices("x", 0, 0, true), &stored, false, true).start_on_boot);
}

#[test]
fn a_changed_root_or_key_is_told_apart_from_white_space() {
    assert!(!trimmed_differ(" C:\\R ", "C:\\R"));
    assert!(trimmed_differ("C:\\R", "C:\\S"));
}

use floaty::settings::fill_blank_choices;

#[test]
fn a_blank_choice_in_the_file_reads_as_its_default() {
    let mut c = choices("   ", 7, 3, true);
    c.single_click = String::new();
    c.animation_mode = String::new();
    fill_blank_choices(&mut c);
    assert_eq!(c.single_click, "drop");
    assert_eq!(c.double_click, "whatever", "only blanks are filled");
    assert_eq!(c.animation_mode, "wave");
    assert_eq!(c.palette_shortcut, "Ctrl+Alt+Space");
    assert_eq!((c.idle_minutes, c.icon_pipeline, c.start_on_boot), (7, 3, true));
}
