use floaty::folders::WidgetRecord;
use floaty::plugin_admin::{launcher_path_refusal, set_enabled, uninstall_refusal, widgets_of_kind};

fn strings(v: &[&str]) -> Vec<String> {
    v.iter().map(|s| s.to_string()).collect()
}

fn record(id: &str, kind: &str) -> WidgetRecord {
    WidgetRecord { id: id.to_string(), kind: kind.to_string(), x: 0, y: 0, text: Vec::new(), items: Vec::new() }
}

#[test]
fn a_kind_is_switched_on_everywhere_and_off_once() {
    let mut disabled = strings(&["clock", "pet", "clock"]);
    set_enabled(&mut disabled, "clock", true);
    assert_eq!(disabled, strings(&["pet"]));
    set_enabled(&mut disabled, "note", false);
    set_enabled(&mut disabled, "note", false);
    assert_eq!(disabled, strings(&["pet", "note"]));
}

#[test]
fn what_cannot_be_removed_says_why() {
    assert_eq!(
        uninstall_refusal("note", 0, true).as_deref(),
        Some("note is one of floaty's own widgets \u{2014} it cannot be removed")
    );
    assert_eq!(
        uninstall_refusal("weather", 3, false).as_deref(),
        Some("3 floatie(s) of that kind are on the desktop \u{2014} remove them with it, or none")
    );
    assert_eq!(uninstall_refusal("weather", 3, true), None);
    assert_eq!(uninstall_refusal("weather", 0, false), None);
    let records = vec![record("weather-1", "weather"), record("note-2", "note"), record("weather-3", "weather")];
    assert_eq!(widgets_of_kind(&records, "weather"), strings(&["weather-1", "weather-3"]));
    assert_eq!(launcher_path_refusal("  ").as_deref(), Some("empty path"));
    assert_eq!(launcher_path_refusal("C:\\x.exe"), None);
}
