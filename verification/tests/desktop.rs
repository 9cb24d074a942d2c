use floaty::desktop::{
    arrival, can_move_into_folder, is_desktop_layer_label, is_launchable_target, is_lnk_path,
    is_program_dir, kind_for_path, mirrors_root_entry, overlay_index, overlay_label, reveal_args,
    same_volume, ungroup_dest_dir, widget_label, Arrival,
};
use floaty::plugins::is_path_kind;

#[test]
fn the_desktop_layer_is_the_overlays_and_the_floatie_windows() {
    assert!(is_desktop_layer_label("desktop-overlay"));
    assert!(is_desktop_layer_label("top-overlay"));
    assert!(is_desktop_layer_label("widget-app-1"));
    assert!(!is_desktop_layer_label("settings"));
    assert!(!is_desktop_layer_label("manager"));
}

#[test]
fn only_a_roots_own_entry_counts_as_mirrored() {
    let root = "C:\\Users\\eric\\Desktop";
    assert!(mirrors_root_entry(root, "C:\\Users\\eric\\Desktop\\a.txt"));
    assert!(mirrors_root_entry(root, "c:\\users\\eric\\desktop\\Sub"));
    assert!(mirrors_root_entry("C:\\Users\\eric\\Desktop\\", "C:\\Users\\eric\\Desktop\\a.txt"));
    assert!(!mirrors_root_entry(root, "C:\\Users\\eric\\Desktop\\sub\\b.txt"));
    assert!(!mirrors_root_entry(root, "C:\\Users\\eric\\Desktop2\\a.txt"));
    assert!(!mirrors_root_entry(root, "D:\\elsewhere\\a.txt"));
    assert!(!mirrors_root_entry(root, "C:\\Users\\eric\\Desktop"));
    assert!(!mirrors_root_entry(root, "a.txt"));
    assert!(!mirrors_root_entry("", "C:\\a.txt"));
}

#[test]
fn test_kind_for_path() {
    assert_eq!(kind_for_path("C:/x/Desktop/Stuff", true), "folder");
    for p in [
        "C:/Users/e/Desktop/Code.lnk",
        "C:/Program Files/App/app.EXE",
        "C:/Users/e/Desktop/site.url",
        "C:/tools/run.cmd",
    ] {
        assert_eq!(kind_for_path(p, false), "app", "{p} should be an app");
    }
    for p in [
        "C:/Users/e/Desktop/notes.txt",
        "C:/Users/e/Desktop/report.pdf",
        "C:/Users/e/Desktop/photo.JPG",
        "C:/Users/e/Desktop/archive.zip",
        "C:/Users/e/Desktop/no-extension",
    ] {
        assert_eq!(kind_for_path(p, false), "file", "{p} should be a file");
    }
    assert!(is_path_kind(&[], "app") && is_path_kind(&[], "file"));
    assert!(!is_path_kind(&[], "folder") && !is_path_kind(&[], "note"));
}

#[test]
fn ungroup_keeps_an_item_where_it_is_when_the_folder_has_no_directory() {
    let src = r"C:\Users\e\Desktop\CrystalDiskInfo.lnk";
    assert_eq!(ungroup_dest_dir(None, src).as_deref(), Some(r"C:\Users\e\Desktop"));
}

#[test]
fn ungroup_moves_an_item_beside_a_folder_that_lives_on_disk() {
    let src = r"C:\Users\e\Desktop\Stuff\thing.lnk";
    assert_eq!(
        ungroup_dest_dir(Some(r"C:\Users\e\Desktop\Stuff"), src).as_deref(),
        Some(r"C:\Users\e\Desktop")
    );
}

#[test]
fn only_what_the_root_owns_is_moved_into_a_folder() {
    let root = r"C:\Users\e\Desktop\floaty-root";
    assert!(can_move_into_folder(Some(root), r"C:\Users\e\Desktop\floaty-root\notes.txt"));
    assert!(!can_move_into_folder(Some(root), r"C:\Program Files\App\app.exe"));
    assert!(!can_move_into_folder(
        Some(root),
        r"C:\ProgramData\Microsoft\Windows\Start Menu\Programs\App.lnk"
    ));
    assert!(!can_move_into_folder(None, r"C:\Users\e\Desktop\notes.txt"));
}

#[test]
fn a_drop_moves_within_a_volume_and_copies_across_one() {
    let desktop = "C:/Users/erict/OneDrive/Desktop";
    assert_eq!(arrival("C:/Users/erict/AppData/Local/Temp/report.txt", false, desktop), Arrival::Move);
    assert_eq!(arrival("D:/stuff/report.txt", false, desktop), Arrival::Copy);
    assert_eq!(arrival("C:/Users/erict/OneDrive/Desktop/report.txt", true, desktop), Arrival::Move);
}

#[test]
fn a_program_from_an_install_directory_becomes_a_shortcut() {
    let exe = "C:/Program Files/Some App/app.exe";
    let desktop = "C:/Users/erict/OneDrive/Desktop";
    assert!(is_program_dir(exe));
    assert_eq!(arrival(exe, false, desktop), Arrival::Shortcut);
    assert_eq!(arrival("C:/Windows/System32/notepad.exe", false, desktop), Arrival::Shortcut);
    assert_eq!(arrival("C:/Users/erict/Documents/a.txt", false, desktop), Arrival::Move);
}

#[test]
fn reveal_quotes_the_path_after_the_flag() {
    assert_eq!(
        reveal_args(r"C:\Users\me\Desktop\rent calculation.xlsx"),
        "/select,\"C:\\Users\\me\\Desktop\\rent calculation.xlsx\""
    );
}

#[test]
fn volumes_are_compared_by_their_drive_without_case() {
    assert!(same_volume(r"C:\a\b.txt", r"c:\other"));
    assert!(!same_volume(r"C:\a\b.txt", r"D:\a"));
    assert!(is_lnk_path(r"C:\x\Thing.LNK"));
    assert!(!is_lnk_path(r"C:\x\Thing.txt"));
    assert!(is_launchable_target(r"C:\x\run.bat"));
    assert!(!is_launchable_target(r"C:\x\notes.md"));
}

#[test]
fn overlay_labels_carry_their_screen() {
    assert_eq!(overlay_label("desktop-overlay", 0), "desktop-overlay");
    assert_eq!(overlay_label("desktop-overlay", 2), "desktop-overlay-2");
    assert_eq!(overlay_index("desktop-overlay"), Some(0));
    assert_eq!(overlay_index("desktop-overlay-2"), Some(2));
    assert_eq!(overlay_index("settings"), None);
    assert_eq!(widget_label("app-1"), "widget-app-1");
}
