use floaty::exchange::{drop_file_list, keep_existing, lines_of, paths_from_text};

#[test]
fn text_becomes_the_candidate_paths() {
    let text = "  \"C:\\Users\\me\\Desktop\"  \n\n  \n\"\"\nC:\\nope\\x.txt";
    assert_eq!(paths_from_text(text), vec!["C:\\Users\\me\\Desktop", "C:\\nope\\x.txt"]);
    assert!(paths_from_text("").is_empty());
}

#[test]
fn lines_are_split_the_way_str_lines_splits_them() {
    for text in ["", "a", "a\n", "a\r\nb", "\n\n", "a\r", "a\r\n\r\n", "x\ny\rz\n"] {
        let expected: Vec<String> = text.lines().map(|l| l.to_string()).collect();
        assert_eq!(lines_of(text), expected, "{text:?}");
    }
}

#[test]
fn a_file_copy_is_a_double_nul_terminated_list() {
    let paths = vec!["C:\\a.txt".to_string(), "D:\\b".to_string()];
    let mut expected: Vec<u16> = "C:\\a.txt".encode_utf16().collect();
    expected.push(0);
    expected.extend("D:\\b".encode_utf16());
    expected.push(0);
    expected.push(0);
    assert_eq!(drop_file_list(&paths), Ok(expected));
    assert_eq!(drop_file_list(&[]), Err("nothing to copy".to_string()));
}

#[test]
fn a_paste_keeps_only_the_paths_that_exist() {
    let real = "C:\\Users\\me\\AppData\\Local\\Temp";
    let text = format!("  \"{real}\"  \n\nnot a path at all\n{real}\\definitely-not-here-12345");
    let candidates = paths_from_text(&text);
    assert_eq!(candidates.len(), 3);
    // the disk's answers, one per candidate: only the real folder is there
    let exists = vec![true, false, false];
    let paths = keep_existing(candidates, &exists);
    assert_eq!(paths, vec![real.to_string()], "only the real one survives: {paths:?}");
}
