use floaty::diagnostics::{log_tail, roll, rolled, rolled_count, should_roll, LOG_BYTES, TAIL_LINES};

#[test]
fn the_live_log_rolls_only_once_it_is_over_the_limit() {
    assert!(!should_roll(LOG_BYTES));
    assert!(should_roll(LOG_BYTES + 1));
}

#[test]
fn a_rolled_name_is_appended_not_swapped() {
    assert_eq!(rolled(r"C:\logs\floaty.log", 1), r"C:\logs\floaty.log.1");
    assert_eq!(rolled("floaty.log", 3), "floaty.log.3");
}

#[test]
fn rolling_moves_the_oldest_first_and_the_live_log_last() {
    let plan = roll("floaty.log");
    assert_eq!(plan.remove, "floaty.log.3");
    assert_eq!(
        plan.renames,
        vec![
            ("floaty.log.2".to_string(), "floaty.log.3".to_string()),
            ("floaty.log.1".to_string(), "floaty.log.2".to_string()),
            ("floaty.log".to_string(), "floaty.log.1".to_string()),
        ]
    );
}

#[test]
fn only_the_rolled_files_that_exist_are_counted() {
    assert_eq!(rolled_count(&[true, false, true]), 2);
    assert_eq!(rolled_count(&[false, false, false]), 0);
    assert_eq!(rolled_count(&[]), 0);
}

#[test]
fn the_report_carries_the_last_lines_oldest_first() {
    let text: String = (0..300).map(|i| format!("line {i}\n")).collect();
    let tail = log_tail(&text);
    assert_eq!(tail.len(), TAIL_LINES);
    assert_eq!(tail[0], "line 50");
    assert_eq!(tail[TAIL_LINES - 1], "line 299");
    assert_eq!(log_tail("a\r\nb"), vec!["a", "b"]);
    assert!(log_tail("").is_empty());
}

use floaty::diagnostics::{beat_age, by_label, display_state_name, is_store_sibling, report_mode};

#[test]
fn the_report_names_states_and_lists_by_label() {
    assert_eq!(display_state_name(1), "on");
    assert_eq!(display_state_name(0), "off");
    assert_eq!(display_state_name(-1), "unknown");
    assert_eq!(report_mode(true), "desktop");
    assert_eq!(report_mode(false), "floating");
    assert!(is_store_sibling("floaty-store.json.bak"));
    assert!(!is_store_sibling("floaty-store.json"));
    assert_eq!(beat_age(5000, 1200), 3800);
    assert_eq!(beat_age(1000, 1200), 0);
    let labels: Vec<String> = ["widget-b", "desktop-overlay", "Widget-a", "widget-b"].iter().map(|s| s.to_string()).collect();
    assert_eq!(by_label(&labels), vec![2, 1, 0, 3], "capitals sort first, as str does; ties keep their order");
}
