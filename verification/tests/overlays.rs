use floaty::overlays::{region_of, HitRect, OverlayRegistry, RegionAction};

fn rect(id: &str, x: i32, y: i32, w: i32, h: i32) -> HitRect {
    HitRect { id: id.to_string(), x, y, w, h }
}

fn applied(a: RegionAction) -> Option<(isize, Vec<(String, i32, i32, i32, i32)>)> {
    match a {
        RegionAction::Apply(h, rs) => Some((h, rs.into_iter().map(|r| (r.id, r.x, r.y, r.w, r.h)).collect())),
        _ => None,
    }
}

#[test]
fn each_window_keeps_its_own_region() {
    let mut reg = OverlayRegistry::new();
    reg.remember_hwnd("desktop-overlay", 11);
    reg.remember_hwnd("top-overlay", 22);
    let a = reg.set_hit_rects("desktop-overlay".to_string(), vec![rect("app-1", 0, 0, 10, 10)]);
    assert_eq!(applied(a), Some((11, vec![("app-1".to_string(), 0, 0, 10, 10)])));
    let b = reg.set_hit_rects("top-overlay".to_string(), vec![rect("note-1", 5, 5, 20, 20)]);
    assert_eq!(applied(b).unwrap().0, 22);
    assert_eq!(reg.rects_for("desktop-overlay").len(), 1);
    assert_eq!(reg.rects_for("desktop-overlay")[0].id, "app-1");
    assert_eq!(reg.rects_for("top-overlay")[0].id, "note-1");
    assert!(reg.rects_for("settings").is_empty());
    assert_eq!(reg.hwnd_for("settings"), 0);
}

#[test]
fn the_same_region_twice_is_applied_once() {
    let mut reg = OverlayRegistry::new();
    reg.remember_hwnd("desktop-overlay", 7);
    let rs = vec![rect("a", 1, 2, 3, 4)];
    assert!(applied(reg.set_hit_rects("desktop-overlay".to_string(), rs.clone())).is_some());
    assert!(matches!(reg.set_hit_rects("desktop-overlay".to_string(), rs), RegionAction::Nothing));
}

#[test]
fn a_region_sent_during_a_drag_waits_for_its_end() {
    let mut reg = OverlayRegistry::new();
    reg.remember_hwnd("desktop-overlay", 9);
    assert!(matches!(reg.set_dragging("desktop-overlay".to_string(), true), RegionAction::Clear(9)));
    assert!(reg.is_dragging("desktop-overlay"));
    let during = reg.set_hit_rects("desktop-overlay".to_string(), vec![rect("a", 0, 0, 5, 5)]);
    assert!(matches!(during, RegionAction::Nothing));
    let end = reg.set_dragging("desktop-overlay".to_string(), false);
    assert_eq!(applied(end), Some((9, vec![("a".to_string(), 0, 0, 5, 5)])));
    assert!(!reg.is_dragging("desktop-overlay"));
}

#[test]
fn a_region_for_a_window_not_known_yet_waits_for_the_window() {
    let mut reg = OverlayRegistry::new();
    assert!(matches!(reg.set_hit_rects("top-overlay".to_string(), vec![rect("a", 0, 0, 5, 5)]), RegionAction::Nothing));
    let pinned = reg.pin_overlay("top-overlay", 33).unwrap();
    assert_eq!(pinned[0].id, "a");
    assert_eq!(reg.hwnd_for("top-overlay"), 33);
    assert!(reg.pin_overlay("desktop-overlay", 44).is_none());
}

#[test]
fn a_region_is_the_rectangles_with_an_area() {
    let region = region_of(&vec![rect("a", 1, 2, 3, 4), rect("b", 0, 0, 0, 9), rect("c", 5, 5, 1, 1)]);
    assert_eq!(region, vec![(1, 2, 4, 6), (5, 5, 6, 6)]);
    assert!(region_of(&vec![]).is_empty());
}
