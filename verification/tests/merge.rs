use floaty::merge::{merge_plan, MergePlan};
use floaty::folders::FolderItem;
use floaty::merge::{
    add_to_folder, drop_center, drop_point, fill_icon, group_name, has_target, merge_target, needs_icon, placed_undo,
    placement, MergeCandidate, PlacedUndo, Placement, Rect,
};

fn item(name: &str, target: &str, icon: &str, is_dir: bool) -> FolderItem {
    FolderItem { name: name.to_string(), target: target.to_string(), icon: icon.to_string(), is_dir }
}

fn cand(id: &str, kind: &str, rect: Option<(i32, i32, i32, i32)>) -> MergeCandidate {
    MergeCandidate {
        id: id.to_string(),
        kind: kind.to_string(),
        rect: rect.map(|(x, y, w, h)| Rect { x, y, w, h }),
    }
}

#[test]
fn the_page_point_counts_only_on_the_records_screen() {
    assert_eq!(drop_point((500, 500), Some(0), (100, 100), Some(0)), Some((500, 500)));
    assert_eq!(drop_point((2500, 500), Some(1), (100, 100), Some(0)), Some((100, 100)));
    assert_eq!(drop_point((2500, 500), Some(1), (100, 100), None), None, "on no screen: bring it back first");
    assert_eq!(drop_point((2500, 500), None, (100, 100), None), None);
    assert_eq!(drop_center((100, 100), (96, 111)), (148, 155));
}

#[test]
fn a_drop_lands_on_the_first_desktop_item_it_falls_within() {
    let cands = vec![
        cand("app-1", "app", Some((180, 180, 80, 90))),
        cand("note-2", "note", Some((180, 180, 80, 90))),
        cand("app-3", "app", None),
        cand("folder-4", "folder", Some((200, 200, 80, 90))),
        cand("file-5", "file", Some((150, 150, 200, 200))),
    ];
    assert_eq!(merge_target(&[], "app-1", (190, 190), &cands), Some(3), "not itself, not a note, not one without a window");
    assert_eq!(merge_target(&[], "app-1", (188, 188), &cands), Some(3), "the slop reaches 12px out");
    assert_eq!(merge_target(&[], "app-1", (292, 250), &cands), Some(4), "the far edge is outside");
    assert_eq!(merge_target(&[], "app-1", (1000, 1000), &cands), None);
    assert_eq!(merge_target(&[], "app-9", (190, 190), &cands), Some(0));
}

#[test]
fn a_folder_takes_a_target_once_and_gives_a_file_its_icon() {
    let mut items = vec![item("a.txt", "C:\\R\\a.txt", "i-a", false)];
    assert!(!add_to_folder(&mut items, item("a again", "C:\\R\\a.txt", "", false), "i-x"));
    assert_eq!(items.len(), 1);
    assert!(add_to_folder(&mut items, item("b.txt", "C:\\R\\b.txt", "", false), "i-b"));
    assert_eq!(items[1].icon, "i-b");
    assert!(add_to_folder(&mut items, item("D", "C:\\R\\D", "", true), "i-d"));
    assert_eq!(items[2].icon, "", "a directory draws its own icon");
    assert!(add_to_folder(&mut items, item("c.txt", "C:\\R\\c.txt", "kept", false), "i-c"));
    assert_eq!(items[3].icon, "kept");

    let mut it = item("e.txt", "C:\\R\\e.txt", "", false);
    assert!(needs_icon(&it));
    fill_icon(&mut it, "i-e");
    assert_eq!(it.icon, "i-e");
    assert!(!needs_icon(&it));
    assert!(!has_target(&item("x", "   ", "", false)));
    assert!(has_target(&item("x", "C:\\x", "", false)));
}

#[test]
fn a_grouping_folder_is_named_after_its_directory() {
    assert_eq!(group_name("C:\\R\\New folder (2)"), "New folder (2)");
    assert_eq!(group_name("C:\\"), "Folder");
}

#[test]
fn an_owned_file_moves_and_anything_else_comes_in_as_a_shortcut() {
    match placement(Some("C:\\R"), "C:\\R\\a.txt", "a.txt") {
        Ok(Placement::Move { name }) => assert_eq!(name, "a.txt"),
        _ => panic!("an owned file moves"),
    }
    match placement(Some("C:\\R"), "C:\\Start\\Tool.LNK", "Tool") {
        Ok(Placement::CopyShortcut { name }) => assert_eq!(name, "Tool.LNK"),
        _ => panic!("a shortcut from outside is copied"),
    }
    match placement(None, "C:\\Program Files\\x.exe", "X: Pro") {
        Ok(Placement::WriteShortcut { name }) => assert_eq!(name, "X Pro.lnk"),
        _ => panic!("anything else gets a new shortcut"),
    }
    match placement(Some("C:\\R"), "C:\\R\\..", "up") {
        Err(e) => assert_eq!(e, "C:\\R\\.. has no file name"),
        _ => panic!("no file name, no placement"),
    }
}

#[test]
fn undoing_a_placement_follows_what_the_disk_shows() {
    match placed_undo("C:\\R\\a.txt", "C:\\R\\D\\a.txt", false) {
        PlacedUndo::Moved { from, to } => {
            assert_eq!(from, "C:\\R\\a.txt");
            assert_eq!(to, "C:\\R\\D\\a.txt");
        }
        _ => panic!("the source is gone: it moved"),
    }
    match placed_undo("C:\\x.exe", "C:\\R\\D\\x.lnk", true) {
        PlacedUndo::Discard { path } => assert_eq!(path, "C:\\R\\D\\x.lnk"),
        _ => panic!("the original stayed: the new file goes"),
    }
    assert!(matches!(placed_undo("C:\\R\\a.txt", "C:\\R\\a.txt", true), PlacedUndo::Nothing));
}

#[test]
fn a_merge_goes_into_a_folder_or_makes_one() {
    assert!(merge_plan("   ", "folder", None, false, None).is_none(), "an item that points nowhere does not merge");
    assert!(matches!(
        merge_plan("C:\\d\\a.txt", "folder", Some("C:\\d\\Docs"), true, Some("C:\\d")),
        Some(MergePlan::IntoFolder { place_in: Some(p) }) if p == "C:\\d\\Docs"
    ));
    assert!(matches!(
        merge_plan("C:\\d\\a.txt", "folder", Some("C:\\d\\Gone"), false, Some("C:\\d")),
        Some(MergePlan::IntoFolder { place_in: None })
    ));
    assert!(matches!(
        merge_plan("C:\\d\\a.txt", "app", None, false, Some("C:\\d")),
        Some(MergePlan::NewFolderOnDisk { root }) if root == "C:\\d"
    ));
    assert!(matches!(merge_plan("C:\\d\\a.txt", "file", None, false, None), Some(MergePlan::InAppFolder)));
}
