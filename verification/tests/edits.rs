use floaty::edits::{
    default_spot, extension_changed, icon_facts, moves_out, protect_icon, protect_items, rename_entries, take_item,
    widget_path, IconFacts,
};
use floaty::folders::{FolderItem, WidgetRecord};

fn item(name: &str, target: &str, icon: &str) -> FolderItem {
    FolderItem { name: name.to_string(), target: target.to_string(), icon: icon.to_string(), is_dir: false }
}

fn record(kind: &str, text: &[(&str, &str)], items: Vec<FolderItem>) -> WidgetRecord {
    WidgetRecord {
        id: format!("{kind}-1"),
        kind: kind.to_string(),
        x: 5,
        y: 6,
        text: text.iter().map(|(k, v)| (k.to_string(), v.to_string())).collect(),
        items,
    }
}

fn value<'a>(r: &'a WidgetRecord, key: &str) -> Option<&'a str> {
    r.text.iter().find(|(k, _)| k == key).map(|(_, v)| v.as_str())
}

#[test]
fn an_item_comes_out_of_a_folder_or_the_refusal_says_why() {
    let mut folder = record(
        "folder",
        &[("path", "C:\\R\\D")],
        vec![item("a", "C:\\R\\D\\a.txt", "i"), item("blank", "  ", "")],
    );
    assert_eq!(take_item(&mut record("note", &[], Vec::new()), 0).err().as_deref(), Some("not a folder"));
    assert_eq!(take_item(&mut folder, 2).err().as_deref(), Some("bad index"));
    assert_eq!(take_item(&mut folder, 1).err().as_deref(), Some("empty target"));
    assert_eq!(folder.items.len(), 2, "a refusal changes nothing");
    let (it, dir) = take_item(&mut folder, 0).unwrap();
    assert_eq!(it.target, "C:\\R\\D\\a.txt");
    assert_eq!(dir.as_deref(), Some("C:\\R\\D"));
    assert_eq!(folder.items.len(), 1);
    assert!(moves_out("C:\\R", "C:\\R\\D\\a.txt"));
    assert!(!moves_out("C:\\R\\D\\", "C:\\R\\D\\a.txt"), "already there");
}

#[test]
fn a_rename_rewrites_name_target_and_a_folders_path() {
    let mut file = record("file", &[("name", "x.txt"), ("target", "C:\\R\\x.txt")], Vec::new());
    rename_entries(&mut file, "C:\\R\\y.png", "y.png");
    assert_eq!(value(&file, "name"), Some("y.png"));
    assert_eq!(value(&file, "target"), Some("C:\\R\\y.png"));
    assert_eq!(value(&file, "path"), None);
    let mut folder = record("folder", &[("path", "C:\\R\\D")], Vec::new());
    rename_entries(&mut folder, "C:\\R\\E", "E");
    assert_eq!(value(&folder, "path"), Some("C:\\R\\E"));
    assert_eq!(value(&folder, "target"), Some("C:\\R\\E"));
    assert_eq!(value(&folder, "name"), Some("E"));
    assert_eq!((folder.x, folder.y), (5, 6));

    assert!(extension_changed("C:\\R\\x.txt", "C:\\R\\x.png"));
    assert!(!extension_changed("C:\\R\\x.TXT", "C:\\R\\y.txt"));
    assert!(extension_changed("C:\\R\\x", "C:\\R\\x.txt"));

    assert_eq!(widget_path(&[], &file).as_deref(), Ok("C:\\R\\y.png"));
    assert_eq!(widget_path(&[], &record("note", &[], Vec::new())).err().as_deref(), Some("this note has no path"));
    assert_eq!(
        widget_path(&[], &record("app", &[("target", " ")], Vec::new())).err().as_deref(),
        Some("this app has no path")
    );
}

#[test]
fn new_floaties_spread_over_a_patch() {
    assert_eq!(default_spot(1), (187, 171));
    assert_eq!(default_spot(11), (140 + 517 % 480, 140 + 341 % 320));
    // the count is taken as an i32, so it wraps the way the original's cast does
    assert_eq!(default_spot(1u64 << 32), (140, 140));
    assert_eq!(default_spot(u32::MAX as u64), (93, 109));
    assert_eq!(default_spot(45_691_141), (140 + (45_691_141i64 * 47 % 480) as i32, 140 + (45_691_141i64 * 31 % 320) as i32));
}

#[test]
fn a_save_keeps_a_better_stored_icon() {
    let missing = icon_facts("", None);
    assert!(missing.missing);
    let crisp = IconFacts { missing: false, low_res: false };
    let blurry = IconFacts { missing: false, low_res: true };

    let mut text = vec![("icon".to_string(), "".to_string())];
    protect_icon(&mut text, Some("stored"), missing, crisp);
    assert_eq!(text[0].1, "stored", "an icon is never lost");
    let mut text = vec![("icon".to_string(), "blurry".to_string())];
    protect_icon(&mut text, Some("stored"), blurry, crisp);
    assert_eq!(text[0].1, "stored", "nor traded for a blurry one");
    let mut text = vec![("icon".to_string(), "new".to_string())];
    protect_icon(&mut text, Some("stored"), crisp, blurry);
    assert_eq!(text[0].1, "new");
    protect_icon(&mut text, None, missing, crisp);
    assert_eq!(text[0].1, "new");

    let mut incoming = vec![item("a", "C:\\a", ""), item("b", "C:\\b", "nb"), item("c", "C:\\c", "")];
    let stored = vec![item("b", "C:\\b", "sb"), item("a", "C:\\a", "sa")];
    protect_items(&mut incoming, &vec![missing, crisp, missing], &stored, &vec![crisp, crisp]);
    assert_eq!(incoming[0].icon, "sa");
    assert_eq!(incoming[1].icon, "nb");
    assert_eq!(incoming[2].icon, "", "nothing stored for it");
}
