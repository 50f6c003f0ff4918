use ripparallel::ordering::WaitingRoom;

#[test]
fn results_in_order_pass_straight_through() {
    let mut room = WaitingRoom::new();
    assert_eq!(room.serve_customer(0, "a"), vec!["a"]);
    assert_eq!(room.serve_customer(1, "b"), vec!["b"]);
}

#[test]
fn early_results_wait_for_their_turn() {
    let mut room = WaitingRoom::new();
    assert_eq!(room.serve_customer(2, "c"), Vec::<&str>::new());
    assert_eq!(room.serve_customer(1, "b"), Vec::<&str>::new());
    assert_eq!(room.serve_customer(0, "a"), vec!["a", "b", "c"]);
    assert_eq!(room.serve_customer(4, "e"), Vec::<&str>::new());
    assert_eq!(room.serve_customer(3, "d"), vec!["d", "e"]);
}

#[test]
fn every_completion_order_gives_submission_order() {
    let orders: [[usize; 4]; 5] =
        [[0, 1, 2, 3], [3, 2, 1, 0], [1, 3, 0, 2], [2, 0, 3, 1], [3, 0, 2, 1]];
    for order in orders {
        let mut room = WaitingRoom::new();
        let mut out = Vec::new();
        for i in order {
            out.extend(room.serve_customer(i, i * 10));
        }
        assert_eq!(out, vec![0, 10, 20, 30]);
    }
}

#[test]
fn accepts_only_numbers_not_yet_handed_in() {
    let mut room = WaitingRoom::new();
    assert!(room.accepts(0));
    assert!(room.accepts(5));
    room.serve_customer(5, ());
    assert!(!room.accepts(5));
    room.serve_customer(0, ());
    assert!(!room.accepts(0));
    assert!(room.accepts(1));
    assert!(!room.accepts(usize::MAX));
}
