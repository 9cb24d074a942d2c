use floaty::scan::{folder_items_from, DirEntry};

fn entry(name: &str, is_dir: bool) -> DirEntry {
    DirEntry { name: name.to_string(), path: format!("C:\\D\\{name}"), is_dir }
}

#[test]
fn a_folder_lists_directories_first_then_names_without_case() {
    let listing = vec![
        entry("beta.txt", false),
        entry(".git", true),
        entry("Zeta", true),
        entry("Alpha.txt", false),
        entry("desktop.ini", false),
        entry("alpha", true),
        entry("Thumbs.db", false),
    ];
    let items = folder_items_from(&listing);
    let names: Vec<&str> = items.iter().map(|i| i.name.as_str()).collect();
    assert_eq!(names, vec!["alpha", "Zeta", "Alpha.txt", "beta.txt"]);
    assert!(items[0].is_dir && !items[2].is_dir);
    assert_eq!(items[3].target, "C:\\D\\beta.txt");
    assert!(items.iter().all(|i| i.icon.is_empty()));
}
