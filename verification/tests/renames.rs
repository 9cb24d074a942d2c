use floaty::folders::{record_path, WidgetRecord};
use floaty::renames::apply_rename;

fn record(id: &str, kind: &str, x: i32, text: &[(&str, &str)]) -> WidgetRecord {
    WidgetRecord {
        id: id.to_string(),
        kind: kind.to_string(),
        x,
        y: 40,
        text: text.iter().map(|(k, v)| (k.to_string(), v.to_string())).collect(),
        items: Vec::new(),
    }
}

fn value<'a>(r: &'a WidgetRecord, key: &str) -> Option<&'a str> {
    r.text.iter().find(|(k, _)| k == key).map(|(_, v)| v.as_str())
}

#[test]
fn a_floatie_follows_its_file_and_keeps_its_place() {
    let mut records = vec![
        record("note-1", "note", 10, &[("text", "C:\\R\\a.txt")]),
        record("file-2", "file", 20, &[("name", "a.txt"), ("target", "C:\\R\\a.txt"), ("icon", "i")]),
        record("folder-3", "folder", 30, &[("path", "C:\\R\\Docs")]),
    ];
    assert_eq!(apply_rename(&[], &mut records, "c:\\r\\A.TXT", "C:\\R\\b.txt"), Some(1));
    let moved = &records[1];
    assert_eq!(value(moved, "target"), Some("C:\\R\\b.txt"));
    assert_eq!(value(moved, "name"), Some("b.txt"), "the label follows the file");
    assert_eq!(value(moved, "icon"), Some("i"), "the icon stays");
    assert_eq!((moved.id.as_str(), moved.x, moved.y), ("file-2", 20, 40));
    assert_eq!(record_path(&[], moved).as_deref(), Some("C:\\R\\b.txt"));

    assert_eq!(apply_rename(&[], &mut records, "C:\\R\\Docs", "C:\\R\\Papers"), Some(2));
    assert_eq!(value(&records[2], "path"), Some("C:\\R\\Papers"));
    assert_eq!(value(&records[2], "name"), None, "a record without a name does not get one");

    assert_eq!(apply_rename(&[], &mut records, "C:\\R\\gone.txt", "C:\\R\\x.txt"), None);
    assert_eq!(value(&records[0], "text"), Some("C:\\R\\a.txt"));
}
