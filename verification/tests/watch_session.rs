use floaty::watch::Batch;
use floaty::watch_session::{retarget_plan, Debounce, MAX_WAIT_MS, QUIET_MS};

fn batch(touched: bool, renames: &[(&str, &str)]) -> Batch {
    Batch {
        touched,
        overflow: false,
        renames: renames.iter().map(|(a, b)| (a.to_string(), b.to_string())).collect(),
    }
}

#[test]
fn a_burst_is_handed_over_after_quiet() {
    let mut d = Debounce::new(0);
    assert!(d.tick(5000).is_none(), "nothing gathered, nothing due");
    d.take("C:\\R", &batch(false, &[]), 100);
    assert!(!d.due(100_000), "an empty batch starts nothing");
    d.take("C:\\R", &batch(true, &[("a.txt", "b.txt")]), 1000);
    assert!(!d.due(1000 + QUIET_MS - 1));
    d.take("C:\\R\\", &batch(false, &[("c", "d")]), 1500);
    assert!(!d.due(1500 + QUIET_MS - 1), "a new event restarts the quiet period");
    let burst = d.tick(1500 + QUIET_MS).expect("quiet long enough");
    assert!(burst.touched);
    assert_eq!(
        burst.renames,
        vec![
            ("C:\\R\\a.txt".to_string(), "C:\\R\\b.txt".to_string()),
            ("C:\\R\\c".to_string(), "C:\\R\\d".to_string()),
        ]
    );
    assert!(d.tick(1_000_000).is_none(), "a burst is handed over once");
}

#[test]
fn a_steady_stream_is_not_deferred_past_the_longest_wait() {
    let mut d = Debounce::new(0);
    let mut t = 10;
    d.take("C:\\R", &batch(true, &[]), t);
    while t < 10 + MAX_WAIT_MS - 100 {
        t += 300;
        d.take("C:\\R", &batch(true, &[]), t);
        if t < 10 + MAX_WAIT_MS {
            assert!(!d.due(t));
        }
    }
    assert!(d.due(10 + MAX_WAIT_MS));
}

#[test]
fn a_healthy_watcher_on_the_same_root_is_left_alone() {
    let keep = retarget_plan(Some("C:\\R"), true, Some("  C:\\R "));
    assert!(!keep.stop_current && keep.start.is_none());
    let restart = retarget_plan(Some("C:\\R"), false, Some("C:\\R"));
    assert!(restart.stop_current);
    assert_eq!(restart.start.as_deref(), Some("C:\\R"));
    let moved = retarget_plan(Some("C:\\R"), true, Some("D:\\S"));
    assert!(moved.stop_current);
    assert_eq!(moved.start.as_deref(), Some("D:\\S"));
    let stop = retarget_plan(Some("C:\\R"), true, Some("   "));
    assert!(stop.stop_current && stop.start.is_none());
    let first = retarget_plan(None, false, Some("C:\\R"));
    assert!(!first.stop_current);
    assert_eq!(first.start.as_deref(), Some("C:\\R"));
}
