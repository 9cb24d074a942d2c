use floaty::manifest::{declared_entry, read_plugin};
use floaty::plugins::{PLUGIN_API_MIN, PLUGIN_API_VERSION};

const GOOD: &str = r#"{
    "id": "countdown",
    "name": "Countdown",
    "description": "Counts down to a moment.",
    "version": "1.2.0",
    "author": "someone",
    "apiVersion": 1,
    "size": { "w": 240, "h": 140 },
    "resizable": true,
    "minSize": { "w": 160, "h": 100 },
    "maxSize": { "w": 600, "h": 400 },
    "defaultData": { "seconds": 300 },
    "addLabel": "+ countdown",
    "layoutPriority": 6
}"#;

const DIR: &str = r"C:\Users\me\AppData\Roaming\floaty\plugins\countdown";

/// The check of the declared sizes, which are floating point and so the caller's.
fn sizes(manifest: &str) -> Result<(), String> {
    let json: serde_json::Value = serde_json::from_str(manifest).map_err(|e| e.to_string())?;
    let size = json.get("size").ok_or("size { w, h } is required")?;
    let w = size.get("w").and_then(|v| v.as_f64()).unwrap_or_default();
    let h = size.get("h").and_then(|v| v.as_f64()).unwrap_or_default();
    if !(60.0..=4000.0).contains(&w) || !(60.0..=4000.0).contains(&h) {
        return Err(format!("size {w}x{h} is outside 60..4000"));
    }
    let pair = |key: &str| -> Option<(f64, f64)> {
        let v = json.get(key)?;
        Some((v.get("w")?.as_f64()?, v.get("h")?.as_f64()?))
    };
    if let (Some(a), Some(b)) = (pair("minSize"), pair("maxSize")) {
        if a.0 > b.0 || a.1 > b.1 {
            return Err("minSize is larger than maxSize".into());
        }
    }
    Ok(())
}

/// A folder holding `manifest`, with the module it names there or not.
fn read(manifest: &str, entry_there: bool) -> Result<floaty::plugins::InstalledPlugin, String> {
    read_plugin(manifest, DIR, entry_there, sizes(manifest))
}

#[test]
fn a_manifest_may_speak_an_older_api_version_but_not_a_newer_one() {
    for version in [PLUGIN_API_MIN, PLUGIN_API_VERSION] {
        let manifest = GOOD.replace("\"apiVersion\": 1", &format!("\"apiVersion\": {version}"));
        let plugin = read(&manifest, true).unwrap_or_else(|e| panic!("apiVersion {version}: {e}"));
        assert_eq!(plugin.api_version, version);
    }
    let ahead = GOOD.replace("\"apiVersion\": 1", "\"apiVersion\": 99");
    let err = read(&ahead, true).unwrap_err();
    assert!(err.contains("99"), "{err}");
    assert!(
        err.contains(&format!("{PLUGIN_API_MIN}..{PLUGIN_API_VERSION}")),
        "the refusal has to name the range: {err}"
    );
    let none = GOOD.replace("\"apiVersion\": 1,", "");
    assert!(read(&none, true).is_err(), "a manifest with no apiVersion");
}

#[test]
fn a_valid_plugin_folder_reads_back() {
    let p = read(GOOD, true).unwrap();
    assert_eq!(p.id, "countdown");
    assert_eq!(p.name, "Countdown");
    assert_eq!(p.version, "1.2.0");
    assert_eq!(p.description, "Counts down to a moment.");
    assert_eq!(p.author, "someone");
    assert!(p.resizable);
    assert_eq!(p.add_label.as_deref(), Some("+ countdown"));
    assert_eq!(p.layout_priority, 6);
    assert_eq!(p.entry, format!("{DIR}\\index.js"));
    assert!(p.desktop_item.is_none());
    assert_eq!(declared_entry(GOOD), "index.js");
    let fixed = read(&GOOD.replace("\"resizable\": true", "\"resizable\": false"), true).unwrap();
    assert!(!fixed.resizable);
}

#[test]
fn broken_plugin_folders_are_rejected_with_a_reason() {
    let cases: [(&str, &str, bool, &str); 11] = [
        ("no-id", r#"{ "name": "x", "apiVersion": 1, "size": {"w":100,"h":100} }"#, true, "id"),
        ("bad-id", r#"{ "id": "Bad Id", "name": "x", "apiVersion": 1, "size": {"w":100,"h":100} }"#, true, "id"),
        ("builtin-id", r#"{ "id": "note", "name": "x", "apiVersion": 1, "size": {"w":100,"h":100} }"#, true, "built-in"),
        ("new-api", r#"{ "id": "sample", "name": "x", "apiVersion": 99, "size": {"w":100,"h":100} }"#, true, "not supported"),
        ("no-name", r#"{ "id": "sample", "apiVersion": 1, "size": {"w":100,"h":100} }"#, true, "name is required"),
        ("no-size", r#"{ "id": "sample", "name": "x", "apiVersion": 1 }"#, true, "size"),
        ("tiny-size", r#"{ "id": "sample", "name": "x", "apiVersion": 1, "size": {"w":10,"h":4000} }"#, true, "outside"),
        ("min-over-max", r#"{ "id": "sample", "name": "x", "apiVersion": 1, "size": {"w":200,"h":200}, "minSize": {"w":300,"h":100}, "maxSize": {"w":200,"h":200} }"#, true, "minSize"),
        ("no-entry-file", r#"{ "id": "sample", "name": "x", "apiVersion": 1, "size": {"w":100,"h":100} }"#, false, "does not exist"),
        ("escaping-entry", r#"{ "id": "sample", "name": "x", "apiVersion": 1, "size": {"w":100,"h":100}, "entry": "../evil.js" }"#, true, "relative path"),
        ("bad-data", r#"{ "id": "sample", "name": "x", "apiVersion": 1, "size": {"w":100,"h":100}, "defaultData": 7 }"#, true, "defaultData"),
    ];
    for (name, manifest, entry, expected) in cases {
        let err = read(manifest, entry).expect_err(name);
        assert!(err.contains(expected), "{name}: expected {expected:?} in {err:?}");
    }
}

#[test]
fn the_checks_run_in_order_and_the_first_failure_is_the_reason() {
    // not JSON at all
    assert!(read("{ nope", true).unwrap_err().starts_with("plugin.json is not valid JSON: "));
    // a bad id is reported before a missing name
    assert_eq!(
        read(r#"{ "id": "X", "apiVersion": 1, "size": {"w":100,"h":100} }"#, true).unwrap_err(),
        "id \"x\" must be 2-32 chars of a-z, 0-9, '-' or '_'"
    );
    // an entry outside the folder is refused before asking whether it exists
    assert_eq!(
        read(r#"{ "id": "sample", "name": "x", "apiVersion": 1, "size": {"w":100,"h":100}, "entry": "../evil.js" }"#, false)
            .unwrap_err(),
        "entry \"../evil.js\" must be a relative path inside the plugin folder"
    );
    assert_eq!(
        read(r#"{ "id": "sample", "name": "x", "apiVersion": 1, "size": {"w":100,"h":100} }"#, false).unwrap_err(),
        "entry \"index.js\" does not exist in the plugin folder"
    );
}

#[test]
fn a_desktop_item_reads_its_defaults_from_the_name() {
    let m = r#"{ "id": "board", "name": " Board ", "apiVersion": 2, "size": {"w":100,"h":100},
        "desktopItem": { "group": true }, "entry": "dist/main.js", "layoutPriority": 4294967297 }"#;
    let p = read(m, true).unwrap();
    let item = p.desktop_item.unwrap();
    assert_eq!(item.path_key, "target");
    assert_eq!(item.noun, "Board floatie");
    assert!(item.group);
    assert_eq!(p.entry, format!("{DIR}\\dist/main.js"));
    assert_eq!(p.layout_priority, 1, "cut to 32 bits");
    assert_eq!(p.description, "");
}

#[test]
fn an_api_version_past_32_bits_is_newer_not_wrapped() {
    let wrapped = GOOD.replace("\"apiVersion\": 1", "\"apiVersion\": 4294967297");
    let err = read(&wrapped, true).unwrap_err();
    assert!(err.contains("4294967297") && err.contains("1..2"), "{err}");
}
