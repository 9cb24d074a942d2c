use floaty::install::{already_installed, installed_version, is_zip, pick_plugin_dir, refuse_traversal, CopyBudget, MAX_FILES};

#[test]
fn the_installed_copy_is_named_by_its_version() {
    assert_eq!(installed_version(Some("1.2.0")), " (v1.2.0)");
    assert_eq!(installed_version(Some("")), "");
    assert_eq!(installed_version(None), "");
    assert_eq!(
        already_installed("countdown", " (v1.0)", "2.0"),
        "countdown is already installed (v1.0) \u{2014} the archive holds v2.0; install it again to replace that copy"
    );
    assert!(already_installed("x", "", "").contains("holds v?;"));
}

#[test]
fn the_plugin_is_the_root_or_the_one_folder_inside_it() {
    assert_eq!(pick_plugin_dir(true, &[]), Ok(None));
    assert_eq!(pick_plugin_dir(false, &["countdown".to_string()]), Ok(Some(0)));
    assert_eq!(
        pick_plugin_dir(false, &[]),
        Err("no plugin.json in the archive (or in a folder directly inside it)".to_string())
    );
    assert_eq!(
        pick_plugin_dir(false, &["a".to_string(), "b".to_string()]),
        Err("the archive holds 2 plugins \u{2014} install them one at a time (a, b)".to_string())
    );
}

#[test]
fn only_a_zip_is_an_archive() {
    assert!(is_zip(r"C:\Downloads\plugin.ZIP"));
    assert!(!is_zip(r"C:\Downloads\plugin.tar"));
    assert!(!is_zip(r"C:\Downloads\zip"));
}

#[test]
fn nothing_may_sit_outside_the_scratch_folder() {
    let fine = vec![r"C:\t\a\plugin.json".to_string(), r"C:\t\a\art\face.svg".to_string()];
    assert_eq!(refuse_traversal(&fine), Ok(()));
    let bad = vec![r"C:\t\a".to_string(), r"C:\t\a\..\evil".to_string()];
    assert_eq!(refuse_traversal(&bad), Err(r"the archive tried to write outside itself (C:\t\a\..\evil)".to_string()));
}

#[test]
fn a_plugin_is_small() {
    let mut b = CopyBudget::new();
    assert!(b.add_file(1000).is_ok());
    assert_eq!(b.files, 1);
    assert_eq!(b.add_file(200 * 1024 * 1024), Err("this plugin is larger than a plugin should be".to_string()));
    let mut full = CopyBudget { files: MAX_FILES, bytes: 0 };
    assert_eq!(full.add_file(1), Err("this plugin has more files than a plugin should have".to_string()));
}
