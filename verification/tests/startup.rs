use floaty::folders::WidgetRecord;
use floaty::startup::{id_number, settle_records};

fn record(id: &str, kind: &str, text: &[(&str, &str)]) -> WidgetRecord {
    WidgetRecord {
        id: id.to_string(),
        kind: kind.to_string(),
        x: 7,
        y: 9,
        text: text.iter().map(|(k, v)| (k.to_string(), v.to_string())).collect(),
        items: Vec::new(),
    }
}

#[test]
fn an_id_ends_in_its_number() {
    assert_eq!(id_number("folder-12"), Some(12));
    assert_eq!(id_number("my-note-3"), Some(3));
    assert_eq!(id_number("42"), Some(42));
    assert_eq!(id_number("note-x"), None);
    assert_eq!(id_number("note-"), None);
    assert_eq!(id_number("note-18446744073709551616"), None, "past u64");
}

#[test]
fn the_store_counts_on_from_its_highest_id_and_settles_kinds() {
    let mut records = vec![
        record("note-3", "note", &[("text", "hi")]),
        record("file-12", "file", &[("target", "C:\\x\\Tool.lnk")]),
        record("app-5", "app", &[("target", "C:\\x\\a.txt")]),
        record("weird", "app", &[("target", "C:\\x\\b.exe")]),
        record("folder-2", "folder", &[("path", "C:\\x\\D"), ("target", "C:\\x\\a.txt")]),
    ];
    let (next, changed) = settle_records(&[], &mut records);
    assert_eq!(next, 12);
    assert_eq!(changed, 2);
    let kinds: Vec<&str> = records.iter().map(|r| r.kind.as_str()).collect();
    assert_eq!(kinds, vec!["note", "app", "file", "app", "folder"]);
    assert_eq!(records[1].id, "file-12", "only the kind changes");
    assert_eq!((records[1].x, records[1].y), (7, 9));
    assert_eq!(settle_records(&[], &mut Vec::new()), (0, 0));
}
