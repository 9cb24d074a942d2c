use floaty::folders::{FolderItem, WidgetRecord};
use floaty::icon_upgrade::{batch_paths, folders_to_upgrade, launchers_to_upgrade, upgrade_items, upgrade_launcher};

fn item(target: &str, icon: &str) -> FolderItem {
    FolderItem { name: "n".to_string(), target: target.to_string(), icon: icon.to_string(), is_dir: false }
}

fn record(kind: &str, text: &[(&str, &str)], items: Vec<FolderItem>) -> WidgetRecord {
    WidgetRecord {
        id: format!("{kind}-1"),
        kind: kind.to_string(),
        x: 0,
        y: 0,
        text: text.iter().map(|(k, v)| (k.to_string(), v.to_string())).collect(),
        items,
    }
}

fn records() -> Vec<WidgetRecord> {
    vec![
        record("app", &[("target", "C:\\a.lnk"), ("icon", "small")], Vec::new()),
        record("file", &[("target", "  ")], Vec::new()),
        record("note", &[("target", "C:\\n.txt")], Vec::new()),
        record("folder", &[("path", "C:\\D")], vec![item("C:\\D\\x", "small"), item("C:\\D\\y", "big"), item("", "")]),
        record("folder", &[("path", "C:\\E")], vec![item("C:\\E\\z", "big")]),
        record("file", &[("target", "C:\\D\\x")], Vec::new()),
    ]
}

#[test]
fn only_low_res_icons_of_things_with_a_target_are_asked_for() {
    let recs = records();
    let launchers = launchers_to_upgrade(&[], &recs, false, &vec![true, true, true, false, false, true]);
    assert_eq!(launchers, vec![(0, "C:\\a.lnk".to_string()), (5, "C:\\D\\x".to_string())]);
    let low = vec![vec![], vec![], vec![], vec![true, false, true], vec![false], vec![]];
    let folders = folders_to_upgrade(&recs, false, &low);
    assert_eq!(folders, vec![(3, vec!["C:\\D\\x".to_string()])]);
    let all = folders_to_upgrade(&recs, true, &low);
    assert_eq!(all.len(), 2, "after a pipeline bump every icon is resolved again");
    assert_eq!(all[0].1, vec!["C:\\D\\x".to_string(), "C:\\D\\y".to_string()]);
    assert_eq!(batch_paths(&launchers, &folders), vec!["C:\\a.lnk".to_string(), "C:\\D\\x".to_string()], "each path once");
}

#[test]
fn an_answer_replaces_the_icon_unless_it_is_none_or_the_same() {
    let mut text = vec![("target".to_string(), "C:\\a.lnk".to_string()), ("icon".to_string(), "small".to_string())];
    assert!(!upgrade_launcher(&mut text, None));
    assert!(!upgrade_launcher(&mut text, Some("none")));
    assert!(upgrade_launcher(&mut text, Some("big")));
    assert_eq!(text[1].1, "big");
    assert!(!upgrade_launcher(&mut text, Some("big")));
    let mut bare = vec![("target".to_string(), "C:\\b.lnk".to_string())];
    assert!(upgrade_launcher(&mut bare, Some("big")));
    assert_eq!(bare[1], ("icon".to_string(), "big".to_string()));

    let mut items = vec![item("C:\\D\\x", "small"), item("C:\\D\\y", "small"), item("C:\\D\\x", "big")];
    assert!(upgrade_items(&mut items, "C:\\D\\x", Some("big")));
    assert_eq!(items[0].icon, "big");
    assert_eq!(items[1].icon, "small");
    assert!(!upgrade_items(&mut items, "C:\\D\\x", Some("big")), "nothing left to change");
    assert!(!upgrade_items(&mut items, "C:\\D\\y", Some("none")));
}

use floaty::icon_upgrade::{keeps_existing, launcher_target, missing_targets};

#[test]
fn a_launcher_resolves_its_own_icon_without_downgrading() {
    let recs = records();
    assert_eq!(launcher_target(&[], &recs, "app-1").as_deref(), Ok("C:\\a.lnk"));
    assert_eq!(launcher_target(&[], &recs, "file-1").err().as_deref(), Some("launcher has no target"));
    assert_eq!(launcher_target(&[], &recs, "note-1").err().as_deref(), Some("launcher not found"));
    assert_eq!(launcher_target(&[], &recs, "nope").err().as_deref(), Some("launcher not found"));
    assert!(keeps_existing("crisp", false, true));
    assert!(!keeps_existing("crisp", false, false));
    assert!(!keeps_existing("none", false, true));
    assert!(!keeps_existing("", false, true));
    assert!(!keeps_existing("blurry", true, true));
    let items = vec![item("C:\\D\\x", ""), item("  ", ""), item("C:\\D\\y", "ok")];
    assert_eq!(missing_targets(&items, &vec![true, true, false]), vec!["C:\\D\\x".to_string()]);
}
