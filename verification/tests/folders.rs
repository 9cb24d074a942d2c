use floaty::folders::{
    carry_icons_by_name, carry_icons_by_target, record_path, sync_result, widget_as_folder_item,
    FolderItem, WidgetRecord,
};

fn item(name: &str, target: &str, icon: &str) -> FolderItem {
    FolderItem { name: name.to_string(), target: target.to_string(), icon: icon.to_string(), is_dir: false }
}

fn record(id: &str, kind: &str, text: &[(&str, &str)]) -> WidgetRecord {
    WidgetRecord {
        id: id.to_string(),
        kind: kind.to_string(),
        x: 0,
        y: 0,
        text: text.iter().map(|(k, v)| (k.to_string(), v.to_string())).collect(),
        items: Vec::new(),
    }
}

#[test]
fn rescans_keep_the_icons_already_resolved() {
    let icon32 = "data:image/png;base64,iVBORw0KGgoAAAANSUhEUgAAACAAAAAg";
    let old = vec![item("a.txt", "C:\\d\\a.txt", icon32), item("b.txt", "C:\\d\\b.txt", "")];

    let mut rescanned = vec![item("a.txt", "C:\\d\\a.txt", ""), item("b.txt", "C:\\d\\b.txt", "")];
    carry_icons_by_target(&old, &mut rescanned);
    assert_eq!(rescanned[0].icon, icon32);
    assert_eq!(rescanned[1].icon, "");

    let mut renamed = vec![item("a.txt", "C:\\d\\RENAMED\\a.txt", "")];
    carry_icons_by_name(&old, &mut renamed);
    assert_eq!(renamed[0].icon, icon32);
}

#[test]
fn a_none_icon_is_not_carried() {
    let old = vec![item("a.txt", "C:\\d\\a.txt", "none")];
    let mut items = vec![item("a.txt", "C:\\d\\a.txt", "kept")];
    carry_icons_by_target(&old, &mut items);
    assert_eq!(items[0].icon, "kept");
}

#[test]
fn record_path_only_answers_for_path_kinds() {
    let app = record("app-1", "app", &[("name", "Chrome"), ("target", "C:\\x\\Chrome.lnk")]);
    assert_eq!(record_path(&[], &app).as_deref(), Some("C:\\x\\Chrome.lnk"));
    let folder = record("folder-2", "folder", &[("name", "Projects"), ("path", "C:\\x\\Projects")]);
    assert_eq!(record_path(&[], &folder).as_deref(), Some("C:\\x\\Projects"));
    let grouped = record("folder-3", "folder", &[("name", "Group")]);
    assert_eq!(record_path(&[], &grouped), None);
    let note = record("note-4", "note", &[("text", "hi")]);
    assert_eq!(record_path(&[], &note), None);
    let blank = record("app-5", "app", &[("target", "   ")]);
    assert_eq!(record_path(&[], &blank), None);
}

#[test]
fn a_record_becomes_a_folder_item_by_its_kind() {
    let app = record("app-1", "app", &[("name", "Chrome"), ("target", "C:\\x\\Chrome.lnk"), ("icon", "i")]);
    let it = widget_as_folder_item(&[], &app).unwrap();
    assert_eq!((it.name.as_str(), it.target.as_str(), it.icon.as_str(), it.is_dir), ("Chrome", "C:\\x\\Chrome.lnk", "i", false));
    let bare = record("file-1", "file", &[]);
    let it = widget_as_folder_item(&[], &bare).unwrap();
    assert_eq!((it.name.as_str(), it.target.as_str()), ("app", ""));
    let folder = record("folder-2", "folder", &[("path", "C:\\x\\P")]);
    let it = widget_as_folder_item(&[], &folder).unwrap();
    assert_eq!((it.name.as_str(), it.target.as_str(), it.is_dir), ("Folder", "C:\\x\\P", true));
    assert!(widget_as_folder_item(&[], &record("folder-3", "folder", &[])).is_none());
    assert!(widget_as_folder_item(&[], &record("note-1", "note", &[])).is_none());
}

#[test]
fn a_sync_counts_files_and_folders() {
    let r = sync_result(3, 2, true);
    assert_eq!((r.files, r.dirs, r.total, r.changed), (3, 2, 5, true));
}
