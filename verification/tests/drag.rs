use floaty::drag::{gesture_label, move_is_undoable, origin_applies, DragOrigin};

#[test]
fn a_merge_undo_only_moves_the_record_that_was_dragged() {
    assert!(origin_applies("file-7", "file-7"));
    assert!(!origin_applies("file-7", "folder-33"));
}

#[test]
fn the_first_move_of_a_drag_is_its_origin() {
    let mut o = DragOrigin::new();
    o.remember_drag_origin("app-1", Some((10, 20)));
    o.remember_drag_origin("app-1", Some((300, 400)));
    assert_eq!(o.drag_origin("app-1"), Some((10, 20)));
    assert_eq!(o.drag_origin("app-2"), None);
    o.forget_drag_origin("app-2");
    assert_eq!(o.drag_origin("app-1"), Some((10, 20)));
    o.forget_drag_origin("app-1");
    assert_eq!(o.drag_origin("app-1"), None);
    o.remember_drag_origin("gone", None);
    assert_eq!(o.drag_origin("gone"), None);
}

#[test]
fn a_drop_where_it_started_is_not_worth_an_undo() {
    assert!(move_is_undoable(Some((1, 2)), Some((3, 4))));
    assert!(!move_is_undoable(Some((1, 2)), Some((1, 2))));
    assert!(!move_is_undoable(None, Some((1, 2))));
    assert!(!move_is_undoable(Some((1, 2)), None));
    assert_eq!(gesture_label("  resize "), "resize");
    assert_eq!(gesture_label("   "), "move");
}
