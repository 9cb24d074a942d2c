use floaty::folders::{FolderItem, WidgetRecord};
use floaty::mirror::{next_pos, reconcile, RootEntry};

fn item(name: &str, target: &str, icon: &str, is_dir: bool) -> FolderItem {
    FolderItem { name: name.to_string(), target: target.to_string(), icon: icon.to_string(), is_dir }
}

fn record(id: &str, kind: &str, x: i32, y: i32, text: &[(&str, &str)], items: Vec<FolderItem>) -> WidgetRecord {
    WidgetRecord {
        id: id.to_string(),
        kind: kind.to_string(),
        x,
        y,
        text: text.iter().map(|(k, v)| (k.to_string(), v.to_string())).collect(),
        items,
    }
}

fn entry(name: &str, path: &str, is_dir: bool, items: Vec<FolderItem>) -> RootEntry {
    RootEntry { name: name.to_string(), path: path.to_string(), is_dir, items }
}

#[test]
fn new_floaties_fill_columns_of_seven_from_the_top_left() {
    let mut occupied: Vec<(i32, i32)> = Vec::new();
    assert_eq!(next_pos(&mut occupied), (80, 80));
    assert_eq!(next_pos(&mut occupied), (80, 195));
    assert_eq!(occupied, vec![(80, 80), (80, 195)]);
    for _ in 0..5 {
        next_pos(&mut occupied);
    }
    assert_eq!(occupied[6], (80, 770));
    assert_eq!(next_pos(&mut occupied), (185, 80), "the eighth starts the next column");
}

#[test]
fn a_spot_within_fifty_pixels_of_a_floatie_is_taken() {
    let mut occupied = vec![(100, 60)];
    assert_eq!(next_pos(&mut occupied), (80, 195));
    let mut clear = vec![(130, 80)];
    assert_eq!(next_pos(&mut clear), (80, 80), "exactly 50px away is free");
}

#[test]
fn a_reconcile_adds_refreshes_and_takes_away() {
    let root = "C:\\R";
    let docs_old = vec![item("a.txt", "C:\\R\\Docs\\a.txt", "data:icon-a", false)];
    let records = vec![
        record("folder-1", "folder", 80, 80, &[("name", "Docs"), ("path", "C:\\R\\Docs")], docs_old),
        record("file-2", "file", 80, 195, &[("name", "gone.txt"), ("target", "C:\\R\\gone.txt")], Vec::new()),
        record("note-3", "note", 80, 310, &[("text", "hello")], Vec::new()),
        record("app-4", "app", 80, 425, &[("target", "C:\\Program Files\\x.exe")], Vec::new()),
    ];
    let entries = vec![
        entry(
            "Docs",
            "C:\\R\\Docs",
            true,
            vec![item("a.txt", "C:\\R\\Docs\\a.txt", "", false), item("b.txt", "C:\\R\\Docs\\b.txt", "", false)],
        ),
        entry("new.txt", "C:\\R\\new.txt", false, Vec::new()),
        entry("Tool.lnk", "C:\\R\\Tool.lnk", false, Vec::new()),
        entry(".hidden", "C:\\R\\.hidden", false, Vec::new()),
        entry("desktop.ini", "C:\\R\\desktop.ini", false, Vec::new()),
    ];
    let r = reconcile(&[], root, &records, &entries, true, 5);
    assert_eq!(r.files, 2, "hidden entries are not counted");
    assert_eq!(r.dirs, 1);
    assert_eq!(r.next_id, 7);
    assert_eq!(r.added.len(), 2);
    assert_eq!(r.added[0].id, "file-6");
    assert_eq!(r.added[0].kind, "file");
    assert_eq!(r.added[0].path, "C:\\R\\new.txt");
    assert_eq!((r.added[0].x, r.added[0].y), (80, 540), "the first spot no floatie covers");
    assert_eq!(r.added[1].id, "app-7");
    assert_eq!(r.added[1].kind, "app");
    assert_eq!((r.added[1].x, r.added[1].y), (80, 655));
    assert_eq!(r.refreshed.len(), 1);
    assert_eq!(r.refreshed[0].0, 0);
    assert_eq!(r.refreshed[0].1.len(), 2);
    assert_eq!(r.refreshed[0].1[0].icon, "data:icon-a", "the resolved icon is carried over");
    assert_eq!(r.vanished, vec![1], "the file no longer in the root goes; the app outside it stays");
}

#[test]
fn an_incomplete_listing_takes_nothing_away() {
    let records = vec![record("file-1", "file", 80, 80, &[("target", "C:\\R\\a.txt")], Vec::new())];
    let r = reconcile(&[], "C:\\R", &records, &Vec::new(), false, 1);
    assert!(r.vanished.is_empty());
    let r = reconcile(&[], "C:\\R", &records, &Vec::new(), true, 1);
    assert_eq!(r.vanished, vec![0]);
}

#[test]
fn a_path_compared_without_case_is_still_there() {
    let records = vec![record("file-1", "file", 80, 80, &[("target", "c:\\r\\A.TXT")], Vec::new())];
    let entries = vec![entry("a.txt", "C:\\R\\a.txt", false, Vec::new())];
    let r = reconcile(&[], "C:\\R", &records, &entries, true, 1);
    assert!(r.vanished.is_empty());
}

#[test]
fn an_idle_folder_is_not_refreshed() {
    let items = vec![item("a.txt", "C:\\R\\D\\a.txt", "data:x", false)];
    let records = vec![record("folder-1", "folder", 80, 80, &[("path", "C:\\R\\D")], items)];
    let entries = vec![entry("D", "C:\\R\\D", true, vec![item("a.txt", "C:\\R\\D\\a.txt", "", false)])];
    let r = reconcile(&[], "C:\\R", &records, &entries, true, 1);
    assert!(r.refreshed.is_empty());
    assert!(r.added.is_empty());
    assert!(r.vanished.is_empty());
}
