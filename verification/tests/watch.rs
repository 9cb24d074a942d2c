use floaty::watch::{
    parse_batch, parse_notification_entry, FILE_ACTION_ADDED, FILE_ACTION_MODIFIED,
    FILE_ACTION_RENAMED_NEW_NAME, FILE_ACTION_RENAMED_OLD_NAME,
};

fn entry(action: u32, name: &str) -> Vec<u8> {
    let mut bytes = Vec::new();
    bytes.extend_from_slice(&0u32.to_le_bytes());
    bytes.extend_from_slice(&action.to_le_bytes());
    bytes.extend_from_slice(&((name.len() * 2) as u32).to_le_bytes());
    for unit in name.encode_utf16() {
        bytes.extend_from_slice(&unit.to_le_bytes());
    }
    bytes
}

fn chain(entries: &[(u32, &str)]) -> Vec<u8> {
    let mut parts: Vec<Vec<u8>> = entries.iter().map(|(a, n)| entry(*a, n)).collect();
    let mut out = Vec::new();
    for i in 0..parts.len() {
        let next = if i + 1 == parts.len() { 0 } else { parts[i].len() as u32 };
        parts[i][0..4].copy_from_slice(&next.to_le_bytes());
        out.extend_from_slice(&parts[i]);
    }
    out
}

#[test]
fn the_batch_parser_pairs_a_rename_and_keeps_the_names() {
    let buffer = chain(&[
        (FILE_ACTION_ADDED, "added.txt"),
        (FILE_ACTION_RENAMED_OLD_NAME, "before.txt"),
        (FILE_ACTION_RENAMED_NEW_NAME, "after.txt"),
    ]);
    let batch = parse_batch(&buffer, buffer.len() as u32, &mut None);
    assert!(batch.touched, "a create has to ask for a reconcile");
    assert_eq!(batch.renames, vec![("before.txt".to_string(), "after.txt".to_string())]);

    let lone = chain(&[(FILE_ACTION_RENAMED_NEW_NAME, "arrived.txt")]);
    let batch = parse_batch(&lone, lone.len() as u32, &mut None);
    assert!(batch.touched && batch.renames.is_empty());

    let overflow = parse_batch(&buffer, 0, &mut None);
    assert!(overflow.touched && overflow.renames.is_empty());
    assert!(overflow.overflow, "an overflowed queue has to say so");

    let plain = parse_batch(&buffer, buffer.len() as u32, &mut None);
    assert!(plain.touched && !plain.overflow);

    let mut pending = None;
    let old_only = chain(&[(FILE_ACTION_RENAMED_OLD_NAME, "split.txt")]);
    let first = parse_batch(&old_only, old_only.len() as u32, &mut pending);
    assert!(!first.touched && first.renames.is_empty());
    let new_only = chain(&[(FILE_ACTION_RENAMED_NEW_NAME, "joined.txt")]);
    let second = parse_batch(&new_only, new_only.len() as u32, &mut pending);
    assert_eq!(second.renames, vec![("split.txt".to_string(), "joined.txt".to_string())]);
}

#[test]
fn a_content_change_drops_a_half_seen_rename() {
    let buffer = chain(&[(FILE_ACTION_RENAMED_OLD_NAME, "a.txt"), (FILE_ACTION_MODIFIED, "a.txt")]);
    let mut pending = None;
    let batch = parse_batch(&buffer, buffer.len() as u32, &mut pending);
    assert!(!batch.touched && batch.renames.is_empty());
    assert_eq!(pending, None);
}

#[test]
fn an_entry_is_read_off_the_buffer_itself() {
    let buffer = chain(&[(FILE_ACTION_ADDED, "mo.txt")]);
    let (next, action, name) = parse_notification_entry(&buffer, 0, buffer.len()).unwrap();
    assert_eq!((next, action, name.as_str()), (0, FILE_ACTION_ADDED, "mo.txt"));
    assert!(parse_notification_entry(&buffer, 0, 11).is_none());
    // a name longer than the read is cut at its end
    let (_, _, cut) = parse_notification_entry(&buffer, 0, 12 + 4).unwrap();
    assert_eq!(cut, "mo");
}
