use floaty::trust::{approved_by_migration, trust_from, PluginTrust};

#[test]
fn an_approval_is_for_the_files_that_were_read() {
    let mut t = PluginTrust::new();
    assert!(!t.approved("clock2", Some("abc")));
    assert!(!t.approve("clock2", None), "an unreadable folder is not approved");
    assert!(!t.knows("clock2"));
    assert!(t.approve("clock2", Some("abc")));
    assert!(t.approved("clock2", Some("abc")));
    assert!(!t.approved("clock2", Some("abd")), "changed files are asked about again");
    assert!(!t.approved("clock2", None));
    assert!(t.approve("weather", Some("w1")));
    t.withdraw("clock2");
    assert!(!t.approved("clock2", Some("abc")));
    assert!(t.approved("weather", Some("w1")), "one plugin's answer is its own");
    assert_eq!(t.pairs(), vec![("weather".to_string(), "w1".to_string())]);
}

#[test]
fn approvals_read_back_and_migrate_once() {
    let pairs = vec![
        ("a".to_string(), "1".to_string()),
        ("b".to_string(), "2".to_string()),
        ("a".to_string(), "3".to_string()),
    ];
    let t = trust_from(&pairs);
    assert!(t.approved("a", Some("3")));
    assert!(!t.approved("a", Some("1")));
    assert!(t.approved("b", Some("2")));
    assert!(approved_by_migration(&t, "c", true));
    assert!(!approved_by_migration(&t, "c", false));
    assert!(!approved_by_migration(&t, "a", true), "an answer already given stands");
}
