use floaty::folders::WidgetRecord;
use floaty::launcher::{apply_icons, candidates, ranked_hits, wanted_icons, DiscoveredApp, Listed};

fn record(id: &str, kind: &str, text: &[(&str, &str)]) -> WidgetRecord {
    WidgetRecord {
        id: id.to_string(),
        kind: kind.to_string(),
        x: 0,
        y: 0,
        text: text.iter().map(|(k, v)| (k.to_string(), v.to_string())).collect(),
        items: Vec::new(),
    }
}

fn listed(name: &str, path: &str, is_dir: bool) -> Listed {
    Listed { name: name.to_string(), path: path.to_string(), is_dir }
}

fn app(name: &str, path: &str) -> DiscoveredApp {
    DiscoveredApp { name: name.to_string(), path: path.to_string() }
}

fn sample() -> Vec<(String, floaty::palette::PaletteHit)> {
    let records = vec![
        record(
            "app-1",
            "app",
            &[("name", "Joplin.lnk"), ("target", "C:\\R\\Joplin.lnk"), ("icon", "http://asset.localhost/j.png")],
        ),
        record("note-2", "note", &[("text", "hi")]),
        record("clock-3", "clock", &[("name", "Clock")]),
        record("file-4", "file", &[("name", "x.txt"), ("target", "C:\\R\\x.txt"), ("icon", "data:image/png;base64,AA")]),
    ];
    let entries = vec![
        listed("JOPLIN.lnk", "c:\\r\\joplin.LNK", false),
        listed("Docs", "C:\\R\\Docs", true),
        listed("note", "C:\\R\\note", false),
    ];
    let apps = vec![app("Joplin.lnk", "C:\\Start\\Joplin.lnk"), app("Code.lnk", "C:\\Start\\Code.lnk")];
    candidates(&[], &["clock".to_string()], &records, Some(("C:\\R", &entries)), &apps)
}

#[test]
fn each_desktop_entry_is_offered_once() {
    let rows = sample();
    let titles: Vec<&str> = rows.iter().map(|(_, h)| h.title.as_str()).collect();
    assert_eq!(titles, vec!["Joplin", "Note", "x.txt", "Docs", "Code"]);
    let kinds: Vec<&str> = rows.iter().map(|(_, h)| h.kind.as_str()).collect();
    assert_eq!(kinds, vec!["floatie", "floatie", "floatie", "folder", "app"]);

    let joplin = &rows[0].1;
    assert_eq!(joplin.subtitle, "App launcher");
    assert_eq!(joplin.icon, "http://asset.localhost/j.png", "a stored icon is kept");
    assert_eq!(joplin.id.as_deref(), Some("app-1"));
    assert_eq!(joplin.path.as_deref(), Some("C:\\R\\Joplin.lnk"));

    let note = &rows[1].1;
    assert_eq!(note.title, "Note", "a floatie without a name goes by its kind's name");
    assert_eq!(note.path, None);

    assert_eq!(rows[2].1.icon, "", "an inline icon is not handed to the launcher");

    let docs = &rows[3].1;
    assert_eq!(rows[3].0, "Docs");
    assert_eq!(docs.subtitle, "C:\\R");
    assert_eq!(docs.path.as_deref(), Some("C:\\R\\Docs"));

    let code = &rows[4].1;
    assert_eq!(rows[4].0, "Code");
    assert_eq!(code.subtitle, "C:\\Start\\Code.lnk");
}

#[test]
fn a_search_ranks_and_then_fills_icons_for_what_it_returns() {
    let rows = sample();
    let all = ranked_hits("", &rows);
    assert_eq!(all.len(), 5);
    let hits = ranked_hits("code", &rows);
    assert_eq!(hits.len(), 1);
    assert_eq!(hits[0].title, "Code");

    let mut hits = all;
    let wanted = wanted_icons(&hits);
    assert_eq!(
        wanted,
        vec!["C:\\R\\x.txt".to_string(), "C:\\R\\Docs".to_string(), "C:\\Start\\Code.lnk".to_string()]
    );
    let icons = vec![
        ("C:\\R\\Docs".to_string(), "none".to_string()),
        ("C:\\Start\\Code.lnk".to_string(), "data:code".to_string()),
    ];
    apply_icons(&mut hits, &icons);
    assert_eq!(hits[3].icon, "", "\"none\" is no icon");
    assert_eq!(hits[4].icon, "data:code");
    assert_eq!(hits[0].icon, "http://asset.localhost/j.png");
}

#[test]
fn without_a_root_only_floaties_and_apps_are_offered() {
    let records = vec![record("note-1", "note", &[("name", "  ")])];
    let rows = candidates(&[], &[], &records, None, &vec![app("Note", "C:\\Start\\Note.lnk")]);
    assert_eq!(rows.len(), 1, "the app shares the note's caption");
    assert_eq!(rows[0].1.title, "Note", "a blank name falls back to the kind's name");
}

use floaty::app_scan::{add_discovered, finish_apps, scan_is_fresh, shortcut_app};

#[test]
fn only_shortcuts_that_are_not_uninstallers_are_apps() {
    let a = shortcut_app("C:\\Start\\Visual Studio Code.LNK").unwrap();
    assert_eq!(a.name, "Visual Studio Code");
    assert_eq!(a.path, "C:\\Start\\Visual Studio Code.LNK");
    assert!(shortcut_app("C:\\Start\\readme.txt").is_none());
    assert!(shortcut_app("C:\\Start\\Uninstall Foo.lnk").is_none());
    assert!(shortcut_app("C:\\Start\\unins000.lnk").is_none());
    assert!(shortcut_app("C:\\Start\\.lnk").is_none(), "no stem");
}

#[test]
fn apps_are_taken_once_by_name_and_listed_by_name() {
    let mut found = Vec::new();
    let mut seen = Vec::new();
    assert!(add_discovered(&mut found, &mut seen, app("zed", "C:\\a\\zed.lnk")));
    assert!(add_discovered(&mut found, &mut seen, app("Arc", "C:\\a\\Arc.lnk")));
    assert!(!add_discovered(&mut found, &mut seen, app("ZED", "C:\\b\\ZED.lnk")), "same name, other case");
    assert!(add_discovered(&mut found, &mut seen, app("beta", "C:\\a\\beta.lnk")));
    let listed = finish_apps(&found);
    let names: Vec<&str> = listed.iter().map(|a| a.name.as_str()).collect();
    assert_eq!(names, vec!["Arc", "beta", "zed"]);
    let many: Vec<DiscoveredApp> = (0..300).map(|i| app(&format!("app{i:03}"), "p")).collect();
    assert_eq!(finish_apps(&many).len(), 250);
    assert!(scan_is_fresh(299));
    assert!(!scan_is_fresh(300));
}
