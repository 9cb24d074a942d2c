use floaty::arrivals::{drop_plan, drop_result};
use floaty::arrivals::{cascade, drop_report, drop_step, record_for_arrival, refusals, DropStep};
use floaty::folders::WidgetRecord;

fn record(kind: &str, text: &[(&str, &str)]) -> WidgetRecord {
    WidgetRecord {
        id: format!("{kind}-1"),
        kind: kind.to_string(),
        x: 0,
        y: 0,
        text: text.iter().map(|(k, v)| (k.to_string(), v.to_string())).collect(),
        items: Vec::new(),
    }
}

#[test]
fn a_drop_moves_copies_or_makes_a_shortcut() {
    let root = "C:\\Users\\me\\Desktop";
    assert!(matches!(drop_step("C:\\Users\\me\\Desktop\\a.txt", false, root, root), DropStep::AlreadyHere));
    match drop_step("C:\\Users\\me\\Desktop\\a.txt", false, root, "C:\\Users\\me\\Desktop\\Docs") {
        DropStep::Move { name } => assert_eq!(name, "a.txt", "into a folder floatie, even from the desktop"),
        _ => panic!("a move"),
    }
    match drop_step("C:\\tmp\\b.txt", false, root, root) {
        DropStep::Move { name } => assert_eq!(name, "b.txt"),
        _ => panic!("the same volume moves"),
    }
    match drop_step("D:\\stick\\c.txt", false, root, root) {
        DropStep::Copy { name } => assert_eq!(name, "c.txt"),
        _ => panic!("another volume copies"),
    }
    assert!(matches!(drop_step("D:\\stick\\photos", true, root, root), DropStep::FolderAcrossVolumes));
    match drop_step("C:\\Program Files\\Tool\\tool.exe", false, root, root) {
        DropStep::Shortcut { name } => assert_eq!(name, "tool.exe"),
        _ => panic!("a program's file becomes a shortcut"),
    }
    assert!(
        matches!(drop_step("C:\\Users\\me\\Desktop\\a.txt", false, "C:\\Users\\me\\Desktop\\", root), DropStep::AlreadyHere),
        "a trailing separator names the same folder"
    );
}

#[test]
fn the_report_says_what_landed_and_what_did_not() {
    assert_eq!(drop_report(2, None, 2, &[]), "2 item(s) onto the desktop, 2 placed at the drop");
    assert_eq!(drop_report(1, Some("C:\\R\\Docs"), 0, &[]), "1 item(s) into C:\\R\\Docs");
    let refused = vec!["D:\\x: denied".to_string(), "D:\\y: gone".to_string()];
    assert_eq!(
        drop_report(1, None, 1, &refused),
        "1 item(s) onto the desktop, 1 placed at the drop \u{2014} refused: D:\\x: denied; D:\\y: gone"
    );
    assert_eq!(refusals(&refused), "D:\\x: denied; D:\\y: gone");
    assert_eq!(refusals(&[]), "");
}

#[test]
fn arrivals_are_found_by_path_or_target_and_cascade() {
    let records = vec![
        record("note", &[("text", "C:\\R\\a.txt")]),
        record("folder", &[("path", "C:\\R\\Docs")]),
        record("file", &[("target", "C:\\R\\a.txt")]),
    ];
    assert_eq!(record_for_arrival(&records, "c:\\r\\A.TXT"), Some(2));
    assert_eq!(record_for_arrival(&records, "C:\\R\\docs"), Some(1));
    assert_eq!(record_for_arrival(&records, "C:\\R\\b.txt"), None);
    assert_eq!(cascade(100, 200, 0), (100, 200));
    assert_eq!(cascade(100, 200, 3), (178, 278));
}

#[test]
fn a_drop_is_planned_path_by_path_and_answered_at_the_end() {
    let root = "C:\\Users\\me\\Desktop";
    assert_eq!(drop_plan(&Vec::new(), root, root).err().unwrap(), "nothing that still exists was dropped");
    let incoming = vec![("C:\\tmp\\b.txt".to_string(), false), ("D:\\stick\\photos".to_string(), true)];
    let steps = drop_plan(&incoming, root, root).ok().unwrap();
    assert_eq!(steps.len(), 2);
    assert!(matches!(&steps[0], DropStep::Move { name } if name == "b.txt"));
    assert!(matches!(steps[1], DropStep::FolderAcrossVolumes));

    let refused = vec!["D:\\stick\\photos: a folder on another drive is left where it is".to_string()];
    assert_eq!(
        drop_result(&["C:\\Users\\me\\Desktop\\b.txt".to_string()], root, root, 1, &refused),
        Ok("1 item(s) onto the desktop, 1 placed at the drop — refused: D:\\stick\\photos: a folder on another drive is left where it is".to_string())
    );
    assert_eq!(
        drop_result(&["x".to_string(), "y".to_string()], root, "C:\\Users\\me\\Desktop\\Docs", 0, &[]),
        Ok("2 item(s) into C:\\Users\\me\\Desktop\\Docs".to_string())
    );
    assert_eq!(drop_result(&[], root, root, 0, &refused), Err(refused[0].clone()));
}
