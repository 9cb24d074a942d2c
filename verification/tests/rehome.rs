use floaty::rehome::rehome_order;

#[test]
fn stranded_floaties_come_back_top_down_then_left_to_right() {
    let positions = vec![(500, 300), (100, 300), (900, -50), (100, 300), (-20, 1200)];
    assert_eq!(rehome_order(&positions), vec![2, 1, 3, 0, 4]);
    assert_eq!(rehome_order(&Vec::new()), Vec::<usize>::new());
}
