use floaty::shell::{filetime_to_system_time, parse_recycled_metadata, restore_choice, same_path, BinEntry};

fn i_file_v2(original: &str, deleted_unix: u64) -> Vec<u8> {
    let mut bytes = Vec::new();
    bytes.extend_from_slice(&2u64.to_le_bytes());
    bytes.extend_from_slice(&0u64.to_le_bytes());
    bytes.extend_from_slice(&((deleted_unix + 11_644_473_600) * 10_000_000).to_le_bytes());
    let units: Vec<u16> = original.encode_utf16().collect();
    bytes.extend_from_slice(&(units.len() as u32).to_le_bytes());
    for unit in &units {
        bytes.extend_from_slice(&unit.to_le_bytes());
    }
    bytes.extend_from_slice(&0u16.to_le_bytes());
    bytes
}

fn i_file_v1(original: &str, deleted_unix: u64) -> Vec<u8> {
    let mut bytes = Vec::new();
    bytes.extend_from_slice(&1u64.to_le_bytes());
    bytes.extend_from_slice(&0u64.to_le_bytes());
    bytes.extend_from_slice(&((deleted_unix + 11_644_473_600) * 10_000_000).to_le_bytes());
    bytes.extend_from_slice(original.as_bytes());
    bytes.push(0);
    bytes
}

#[test]
fn a_recycled_files_metadata_parses_in_both_formats() {
    let unix = 1_700_000_000u64;
    let (path, when) = parse_recycled_metadata(&i_file_v2(r"C:\Users\me\Desktop\a b.txt", unix)).unwrap();
    assert_eq!(path, r"C:\Users\me\Desktop\a b.txt");
    assert_eq!(when.0, unix, "the deletion time is what picks the newest of several entries");
    let (path, _) = parse_recycled_metadata(&i_file_v2("C:\\Users\\me\\Desktop\\\u{767e}\u{5ea6}\u{7f51}\u{76d8}.lnk", unix)).unwrap();
    assert_eq!(path, "C:\\Users\\me\\Desktop\\\u{767e}\u{5ea6}\u{7f51}\u{76d8}.lnk");
    let (path, _) = parse_recycled_metadata(&i_file_v1(r"C:\old\thing.txt", unix)).unwrap();
    assert_eq!(path, r"C:\old\thing.txt");
    assert!(parse_recycled_metadata(&[]).is_none());
    assert!(parse_recycled_metadata(&[0u8; 40]).is_none());
    assert!(parse_recycled_metadata(&i_file_v2("", unix)).is_none());
}

#[test]
fn paths_match_the_way_windows_compares_them() {
    assert!(same_path(r"C:\Users\Me\a.txt", r"c:\users\me\A.TXT"));
    assert!(same_path(r"C:\Users\Me\", r"C:\Users\Me"));
    assert!(!same_path(r"C:\Users\Me\a.txt", r"C:\Users\Me\b.txt"));
}

#[test]
fn the_windows_clock_starts_in_1601() {
    assert_eq!(filetime_to_system_time(0), (0, 0));
    assert_eq!(filetime_to_system_time(11_644_473_600 * 10_000_000 + 5), (0, 500));
    assert_eq!(filetime_to_system_time((11_644_473_601) * 10_000_000 + 9_999_999), (1, 999_999_900));
}

fn entry(original: &str, secs: u64, held: bool) -> BinEntry {
    BinEntry { original: original.to_string(), deleted_at: (secs, 0), held }
}

#[test]
fn an_undo_puts_back_the_newest_delete() {
    let entries = vec![
        entry(r"C:\d\a.txt", 10, true),
        entry(r"C:\d\b.txt", 50, true),
        entry(r"c:\D\A.TXT", 30, true),
        entry(r"C:\d\a.txt", 30, true),
    ];
    assert_eq!(restore_choice(r"C:\d\a.txt", false, &entries), Ok(2));
    assert_eq!(restore_choice("  ", false, &entries), Err("no path to restore".to_string()));
    assert_eq!(restore_choice(r"C:\d\a.txt", true, &entries), Err(r"'C:\d\a.txt' is on disk already".to_string()));
    assert_eq!(
        restore_choice(r"C:\d\c.txt", false, &entries),
        Err(r"'C:\d\c.txt' is no longer in the Recycle Bin".to_string())
    );
    let gone = vec![entry(r"C:\d\a.txt", 10, false)];
    assert_eq!(
        restore_choice(r"C:\d\a.txt", false, &gone),
        Err(r"the Recycle Bin remembers 'C:\d\a.txt' but no longer holds it".to_string())
    );
}
