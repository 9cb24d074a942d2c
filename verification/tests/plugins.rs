use floaty::plugins::{
    check_api_version, check_entry, check_name, desktop_item_from, find, install_from,
    is_desktop_item, is_path_kind, kind_exists, path_key, plugins, resizable, valid_id,
    validate_plugin_id, version_relation, DesktopItemFields, InstalledPlugin, PLUGIN_API_MIN,
    PLUGIN_API_VERSION,
};

const KINDS: [&str; 9] = ["note", "clock", "pet", "app", "file", "folder", "live2d", "visualizer", "sysmon"];

fn installed(id: &str, version: &str) -> InstalledPlugin {
    InstalledPlugin {
        id: id.to_string(),
        name: format!("Test {id}"),
        description: String::new(),
        version: version.to_string(),
        author: "someone".to_string(),
        api_version: 1,
        resizable: true,
        desktop_item: None,
        add_label: Some(format!("+ {id}")),
        layout_priority: 6,
        entry: format!("C:\\plugins\\{id}\\index.js"),
    }
}

#[test]
fn every_kind_is_present_once() {
    let all = plugins();
    for id in KINDS {
        assert!(kind_exists(&[], id), "plugin {id} should exist");
        let p = &all[find(id).unwrap()];
        assert_eq!(p.id, id);
        assert!(!p.name.is_empty() && !p.description.is_empty());
    }
    assert_eq!(all.len(), KINDS.len(), "manifest has an unlisted plugin");
    assert!(!kind_exists(&[], "non_existent"));
}

#[test]
fn desktop_items_are_the_kinds_that_live_on_disk() {
    let all = plugins();
    let desktop: Vec<&str> = all.iter().filter(|p| p.desktop_item.is_some()).map(|p| p.id).collect();
    assert_eq!(desktop, ["app", "file", "folder"]);
    assert!(is_path_kind(&[], "app") && is_path_kind(&[], "file"));
    assert!(!is_path_kind(&[], "folder") && !is_path_kind(&[], "note"));
    assert!(is_desktop_item(&[], "folder") && !is_desktop_item(&[], "note"));
    assert_eq!(path_key(&[], "folder").as_deref(), Some("path"));
    assert_eq!(path_key(&[], "app").as_deref(), Some("target"));
    assert_eq!(path_key(&[], "note"), None);
    for p in all.iter().filter(|p| p.desktop_item.is_some()) {
        let d = p.desktop_item.as_ref().unwrap();
        assert!(d.noun.ends_with("floatie"), "{}: odd noun {}", p.id, d.noun);
    }
}

#[test]
fn versions_are_compared_as_numbers_not_as_text() {
    assert_eq!(version_relation(None, "1.0.0"), "new");
    assert_eq!(version_relation(Some("1.0.0"), "1.0.0"), "same");
    assert_eq!(version_relation(Some("1.0.0"), "1.10.0"), "upgrade");
    assert_eq!(version_relation(Some("1.10.0"), "1.9.0"), "downgrade");
    assert_eq!(version_relation(Some("v2"), "2.1"), "upgrade");
    assert_eq!(version_relation(Some(""), "1.0"), "unknown");
    assert_eq!(version_relation(Some("abc"), "1.0"), "unknown");
    assert_eq!(version_relation(Some("1.0"), "beta"), "unknown");
}

#[test]
fn broken_manifests_are_refused_with_a_reason() {
    assert!(validate_plugin_id(None).unwrap_err().contains("id"));
    assert!(validate_plugin_id(Some("Bad Id")).unwrap_err().contains("id"));
    assert!(validate_plugin_id(Some("note")).unwrap_err().contains("built-in"));
    assert_eq!(validate_plugin_id(Some("  Countdown ")).unwrap(), "countdown");
    assert_eq!(validate_plugin_id(Some("Bad Id")).unwrap_err(), "id \"bad id\" must be 2-32 chars of a-z, 0-9, '-' or '_'");
    assert!(check_api_version(Some(99)).unwrap_err().contains("not supported"));
    assert_eq!(check_name(None).unwrap_err(), "name is required");
    assert_eq!(check_name(Some("  Countdown ")).unwrap(), "Countdown");
    assert!(check_entry(Some("../evil.js")).unwrap_err().contains("relative path"));
    assert!(check_entry(Some(r"C:\evil.js")).is_err());
    assert!(check_entry(Some(r"\evil.js")).is_err());
    assert_eq!(check_entry(None).unwrap(), "index.js");
    assert_eq!(check_entry(Some("dist/main.js")).unwrap(), "dist/main.js");
}

#[test]
fn ids_are_short_lowercase_words() {
    assert!(valid_id(&"countdown".chars().collect::<Vec<_>>()));
    assert!(valid_id(&"9lives_x-1".chars().collect::<Vec<_>>()));
    assert!(!valid_id(&"a".chars().collect::<Vec<_>>()));
    assert!(!valid_id(&"-dash".chars().collect::<Vec<_>>()));
    assert!(!valid_id(&"x".repeat(33).chars().collect::<Vec<_>>()));
    assert!(!valid_id(&"caf\u{e9}".chars().collect::<Vec<_>>()));
}

#[test]
fn a_desktop_item_defaults_to_a_single_target() {
    let d = desktop_item_from(&DesktopItemFields { path_key: None, noun: None, group: None }, "Countdown");
    assert_eq!((d.path_key.as_str(), d.noun.as_str(), d.group), ("target", "Countdown floatie", false));
    let g = desktop_item_from(
        &DesktopItemFields { path_key: Some("path".to_string()), noun: Some("box".to_string()), group: Some(true) },
        "x",
    );
    assert_eq!((g.path_key.as_str(), g.noun.as_str(), g.group), ("path", "box", true));
}

#[test]
fn install_from_keeps_the_good_folders_and_names_the_bad_ones() {
    let listing = vec![
        ("countdown".to_string(), Ok(installed("countdown", "1.2.0"))),
        ("broken".to_string(), Err("plugin.json is not valid JSON: oops".to_string())),
        ("again".to_string(), Ok(installed("countdown", "2.0.0"))),
        ("plain".to_string(), Ok(installed("plain", ""))),
    ];
    let out = install_from(Ok(listing));
    assert_eq!(out.accepted, vec!["countdown v1.2.0", "plain"]);
    assert_eq!(out.rejected, vec!["broken: plugin.json is not valid JSON: oops", "countdown: duplicate id"]);
    let loaded = out.loaded.unwrap();
    assert_eq!(loaded.len(), 2);
    assert!(kind_exists(&loaded, "countdown"));
    assert!(resizable(&loaded, "countdown"));
    assert!(!is_desktop_item(&loaded, "countdown") && path_key(&loaded, "countdown").is_none());
    assert!(kind_exists(&loaded, "note"));

    let failed = install_from(Err("cannot read the plugins folder".to_string()));
    assert!(failed.accepted.is_empty());
    assert_eq!(failed.rejected, vec!["cannot read the plugins folder"]);
    assert!(failed.loaded.is_none());
}
