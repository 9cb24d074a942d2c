use floaty::palette::{palette_caption, rank, score};

fn keys(list: &[&str]) -> Vec<String> {
    list.iter().map(|s| (*s).to_string()).collect()
}

#[test]
fn a_name_that_starts_with_the_query_beats_one_that_merely_contains_it() {
    assert_eq!(score("code", "Visual Studio Code"), Some(2), "starts a word");
    assert_eq!(score("barcode", "Barcode"), Some(0), "exact");
    assert_eq!(score("bar", "Barcode"), Some(1), "prefix");
    assert_eq!(score("code", "Barcode"), Some(3), "inside a word");
    assert!(score("code", "Visual Studio Code") < score("code", "Barcode"));
    assert_eq!(score("zz", "Arc"), None);
}

#[test]
fn the_query_matches_case_insensitively_and_by_initials() {
    assert_eq!(score("ARC", "Arc"), Some(0));
    assert_eq!(score("vsc", "Visual Studio Code"), Some(4));
    assert_eq!(score("vscode", "Visual Studio Code"), Some(4));
    assert_eq!(score("codex", "Visual Studio Code"), None, "and a letter that is not there, in order, does not match");
    assert_eq!(score("", "anything"), Some(0), "an empty query asks for everything");
    assert_eq!(score("  ", "anything"), Some(0));
}

#[test]
fn ranking_keeps_the_desktops_own_order_within_a_score() {
    let keys = keys(&["Barcode", "Arc", "Visual Studio Code", "Arcade"]);
    assert_eq!(rank("arc", &keys, 10), vec![1, 3, 0]);
    assert_eq!(rank("code", &keys, 10), vec![2, 0], "word-start before inside");
    assert_eq!(rank("", &keys, 2), vec![0, 1], "an empty query is the first page");
    assert_eq!(rank("zzz", &keys, 10), Vec::<usize>::new());
    assert_eq!(rank("a", &keys, 1).len(), 1, "the cap is the cap");
}

#[test]
fn a_shortcut_reads_as_the_app_it_launches() {
    assert_eq!(palette_caption("Code.lnk", false), "Code");
    assert_eq!(palette_caption("Steam.URL", false), "Steam");
    assert_eq!(palette_caption("notes.txt", false), "notes.txt");
    assert_eq!(palette_caption("Stuff.lnk", true), "Stuff.lnk");
    assert_eq!(palette_caption("lnk", false), "lnk");
}
