use floaty::desk_ops::{
    clipboard_paths, delete_note, deletes_file, folder_rename_dest, is_managed, paste_plan, placed_name, renamed_folder_entries,
    root_shortcut, wants_root_shortcut,
};
use floaty::folders::WidgetRecord;

fn record(id: &str, text: &[(&str, &str)]) -> WidgetRecord {
    WidgetRecord {
        id: id.to_string(),
        kind: "file".to_string(),
        x: 0,
        y: 0,
        text: text.iter().map(|(k, v)| (k.to_string(), v.to_string())).collect(),
        items: Vec::new(),
    }
}

fn strings(v: &[&str]) -> Vec<String> {
    v.iter().map(|s| s.to_string()).collect()
}

#[test]
fn the_clipboard_gets_each_floaties_file() {
    let records = vec![
        record("a", &[("target", "C:\\R\\a.txt")]),
        record("b", &[("path", "C:\\R\\B")]),
        record("c", &[("text", "note")]),
    ];
    assert_eq!(clipboard_paths(&records, &strings(&["b", "x", "c", "a"])), Ok(strings(&["C:\\R\\B", "C:\\R\\a.txt"])));
    assert_eq!(clipboard_paths(&records, &strings(&["c"])), Err("nothing to copy".to_string()));
    assert_eq!(paste_plan(strings(&["C:\\x"]), Some(strings(&["C:\\y"]))), Ok((strings(&["C:\\x"]), "files")));
    assert_eq!(paste_plan(Vec::new(), Some(strings(&["C:\\y"]))), Ok((strings(&["C:\\y"]), "text")));
    assert_eq!(paste_plan(Vec::new(), Some(Vec::new())), Err("the clipboard has no files (or a path) on it".to_string()));
    assert_eq!(paste_plan(Vec::new(), None), Err("the clipboard has no files (or a path) on it".to_string()));
}

#[test]
fn deleting_a_floatie_deletes_only_files_the_app_looks_after() {
    assert!(is_managed("C:\\R\\a.txt", "C:\\R", None));
    assert!(!is_managed("C:\\R\\a.txt", "  ", None));
    assert!(is_managed("C:\\Users\\me\\Desktop\\b.txt", "", Some("C:\\Users\\me")));
    assert!(!is_managed("C:\\Program Files\\x.exe", "C:\\R", Some("C:\\Users\\me")));
    assert!(deletes_file("folder", true));
    assert!(!deletes_file("note", true));
    assert!(!deletes_file("app", false));
    assert_eq!(delete_note("C:\\R\\a.txt", Some(true)), "moved 'C:\\R\\a.txt' to the recycle bin");
    assert_eq!(
        delete_note("D:\\a", Some(false)),
        "deleted 'D:\\a' for good \u{2014} this drive's Recycle Bin would not take it"
    );
    assert_eq!(delete_note("C:\\x.exe", None), "removed the floatie; 'C:\\x.exe' stays on disk");
}

#[test]
fn apps_come_into_the_root_as_shortcuts() {
    assert!(wants_root_shortcut(Some("C:\\R"), "C:\\Program Files\\x.exe", true));
    assert!(!wants_root_shortcut(Some("C:\\R"), "C:\\R\\x.lnk", true));
    assert!(!wants_root_shortcut(Some("C:\\R"), "C:\\gone.exe", false));
    assert!(!wants_root_shortcut(None, "C:\\x.exe", true));
    assert_eq!(root_shortcut("C:\\Start\\Tool.lnk", "Tool"), Ok((true, "Tool.lnk".to_string())));
    assert_eq!(root_shortcut("C:\\Apps\\tool.exe", "My Tool"), Ok((false, "My Tool.lnk".to_string())));
    assert_eq!(root_shortcut("C:\\", "x"), Err("C:\\ has no file name".to_string()));
}

#[test]
fn a_moved_item_keeps_its_name_or_takes_a_checked_one() {
    assert_eq!(placed_name("C:\\R\\a.txt", None), Ok("a.txt".to_string()));
    assert_eq!(placed_name("C:\\R\\a.txt", Some("  b.txt ")), Ok("b.txt".to_string()));
    assert!(placed_name("C:\\R\\a.txt", Some("a|b")).is_err());
    assert_eq!(placed_name("C:\\", None), Err("C:\\ has no file name".to_string()));
    assert_eq!(folder_rename_dest(Some("C:\\R\\Old"), "New").as_deref(), Some("C:\\R\\New"));
    assert_eq!(folder_rename_dest(Some("C:\\R\\Old"), "Old"), None);
    assert_eq!(folder_rename_dest(None, "New"), None);
    let mut text = vec![("name".to_string(), "Old".to_string()), ("path".to_string(), "C:\\R\\Old".to_string())];
    renamed_folder_entries(&mut text, "C:\\R\\New", "New");
    assert_eq!(text, vec![("name".to_string(), "New".to_string()), ("path".to_string(), "C:\\R\\New".to_string())]);
}
