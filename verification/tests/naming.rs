use floaty::naming::{checked_name, free_name, new_folder_path, rename_target, same_name_other_case, shortcut_file_name};

#[test]
fn shortcut_names_are_usable_file_names() {
    assert_eq!(shortcut_file_name("Visual Studio Code"), "Visual Studio Code.lnk");
    assert_eq!(shortcut_file_name("a/b\\c:d*e?f\"g<h>i|j"), "abcdefghij.lnk");
    assert_eq!(shortcut_file_name("  ..  "), "Shortcut.lnk");
    assert_eq!(shortcut_file_name("Steam.lnk"), "Steam.lnk");
}

#[test]
fn a_name_is_checked_the_way_explorer_checks_it() {
    assert_eq!(checked_name("  report.txt  ").unwrap(), "report.txt");
    for bad in ["", "   ", ".", "..", "a/b", "a\\b", "a:b", "a?b", "a*b", "trailing."] {
        assert!(checked_name(bad).is_err(), "{bad:?} should be refused");
    }
}

#[test]
fn a_collision_gets_a_number_rather_than_overwriting() {
    let taken = vec!["report.txt".to_string()];
    assert_eq!(free_name(r"C:\d", "report.txt", &taken), r"C:\d\report (2).txt");
    let none: Vec<String> = Vec::new();
    assert_eq!(free_name(r"C:\d", "report.txt", &none), r"C:\d\report.txt");
    let two = vec!["REPORT.txt".to_string(), "report (2).txt".to_string()];
    assert_eq!(free_name(r"C:\d", "report.txt", &two), r"C:\d\report (3).txt");
}

#[test]
fn a_new_folder_is_the_next_free_one() {
    let none: Vec<String> = Vec::new();
    assert_eq!(new_folder_path(r"C:\d", &none), r"C:\d\New folder");
    let one = vec!["New folder".to_string()];
    assert_eq!(new_folder_path(r"C:\d", &one), r"C:\d\New folder (2)");
    let gap = vec!["New folder (2)".to_string()];
    assert_eq!(new_folder_path(r"C:\d", &gap), r"C:\d\New folder");
}

#[test]
fn renaming_only_the_case_is_a_rename() {
    assert!(same_name_other_case(r"C:\d\notes.txt", r"C:\d\Notes.txt"));
    assert!(same_name_other_case("notes.txt", "notes.txt"));
    assert!(!same_name_other_case("notes.txt", "other.txt"));
}

#[test]
fn a_rename_lands_beside_the_item_under_the_checked_name() {
    assert_eq!(
        rename_target("C:\\Users\\me\\Desktop\\old.txt", "  new.txt "),
        Ok("C:\\Users\\me\\Desktop\\new.txt".to_string())
    );
    assert_eq!(
        rename_target("C:\\Users\\me\\Desktop\\old.txt", "a/b"),
        Err("name cannot contain a path separator".to_string())
    );
    assert_eq!(rename_target("C:\\", "x"), Err("item has no parent directory".to_string()));
}

#[test]
fn a_name_taken_in_another_case_is_taken_accents_included() {
    let taken = vec!["Éclair.txt".to_string()];
    assert_eq!(free_name(r"C:\d", "éclair.txt", &taken), r"C:\d\éclair (2).txt");
    assert_eq!(free_name(r"C:\d", "ÉCLAIR.TXT", &taken), r"C:\d\ÉCLAIR (2).TXT");
    assert_eq!(free_name(r"C:\d", "eclair.txt", &taken), r"C:\d\eclair.txt");
}
