use floaty::audio::Capture;

#[test]
fn the_first_visualizer_starts_the_capture_and_the_last_stops_it() {
    let mut c = Capture::new();
    assert!(c.start(None), "the first one needs a thread");
    assert!(!c.start(Some(90)), "the second one only counts");
    assert!(c.should_capture());
    c.stop();
    assert!(c.should_capture());
    c.stop();
    assert!(!c.should_capture());
    c.stop();
    assert!(!c.should_capture(), "a stop too many never underflows");
    assert!(c.is_running());
    c.capture_ended();
    assert!(!c.is_running());
}

#[test]
fn the_rate_is_held_to_what_the_visualizer_allows() {
    let mut c = Capture::new();
    assert_eq!(c.target_fps(false), 30);
    c.set_fps(1000);
    assert_eq!(c.target_fps(false), 60);
    c.set_fps(0);
    assert_eq!(c.target_fps(false), 5);
    assert_eq!(c.target_fps(true), 6);
}

#[test]
fn a_dead_capture_comes_back_only_while_someone_listens() {
    let mut c = Capture::new();
    assert!(!c.ensure_running(None), "nobody is listening");
    assert!(c.start(None));
    assert!(!c.ensure_running(None), "it is running");
    c.capture_ended();
    assert!(c.ensure_running(Some(20)));
    assert!(c.is_running());
}
