use guessing_game_cust::guessing::{
    get_answer, Bounds, BoundsErrorKind, Reply, ToBounds,
};

#[test]
fn intake_is_order_independent() {
    let forward = "3 7".to_bounds().unwrap();
    let backward = "7 3".to_bounds().unwrap();
    assert_eq!(forward.lower(), 3);
    assert_eq!(forward.upper(), 7);
    assert_eq!(backward.lower(), 3);
    assert_eq!(backward.upper(), 7);
    assert_eq!(forward.init_vals(), (3, 7));
    assert_eq!(backward.init_vals(), (3, 7));
}

#[test]
fn equal_bounds_are_rejected_at_intake() {
    match "5 5".to_bounds() {
        Ok(_) => panic!("equal bounds must be rejected"),
        Err(e) => assert!(matches!(e.kind, BoundsErrorKind::BoundsEqual)),
    }
}

#[test]
fn intake_passes_parse_errors_through() {
    match "5".to_bounds() {
        Ok(_) => panic!("one number is not enough"),
        Err(e) => assert!(matches!(e.kind, BoundsErrorKind::ParseArgs(_))),
    }
}

#[test]
fn builder_requires_both_bounds() {
    assert!(matches!(
        Bounds::build().create(),
        Err(e) if matches!(e.kind, BoundsErrorKind::Initialization)
    ));
    assert!(matches!(
        Bounds::build().lower(1).create(),
        Err(e) if matches!(e.kind, BoundsErrorKind::Initialization)
    ));
    assert!(matches!(
        Bounds::build().upper(9).create(),
        Err(e) if matches!(e.kind, BoundsErrorKind::Initialization)
    ));
}

#[test]
fn builder_rejects_inverted_or_equal_range() {
    assert!(matches!(
        Bounds::build().lower(5).upper(3).create(),
        Err(e) if matches!(e.kind, BoundsErrorKind::BoundsInvalid)
    ));
    assert!(matches!(
        Bounds::build().lower(5).upper(5).create(),
        Err(e) if matches!(e.kind, BoundsErrorKind::BoundsInvalid)
    ));
}

#[test]
fn guessing_walkthrough() {
    let mut bounds = Bounds::build().lower(1).upper(100).create().unwrap();
    assert_eq!(bounds.tries(), 0);
    assert_eq!(bounds.guess(), 50);
    assert_eq!(bounds.tries(), 1);
    bounds.adj_bounds(Reply::TooHigh(50)).unwrap();
    assert_eq!(bounds.upper(), 49);
    assert_eq!(bounds.lower(), 1);
    assert_eq!(bounds.guess(), 25);
    assert_eq!(bounds.tries(), 2);
    assert_eq!(bounds.init_vals(), (1, 100));
}

#[test]
fn guess_stays_within_bounds_and_counts() {
    let mut bounds = Bounds::build().lower(-9).upper(8).create().unwrap();
    for expected_tries in 1..=4 {
        let g = bounds.guess();
        assert!(bounds.lower() <= g && g <= bounds.upper());
        assert_eq!(bounds.tries(), expected_tries);
    }
}

#[test]
fn too_low_raises_lower_bound() {
    let mut bounds = Bounds::build().lower(10).upper(20).create().unwrap();
    bounds.adj_bounds(Reply::TooLow(12)).unwrap();
    assert_eq!(bounds.lower(), 13);
    assert_eq!(bounds.upper(), 20);
}

#[test]
fn contradictory_replies_overlap_the_bounds() {
    let mut bounds = Bounds::build().lower(1).upper(2).create().unwrap();
    bounds.adj_bounds(Reply::TooLow(1)).unwrap();
    assert_eq!(bounds.lower(), 2);
    match bounds.adj_bounds(Reply::TooHigh(2)) {
        Ok(()) => panic!("an empty range must be reported"),
        Err(e) => assert!(matches!(e.kind, BoundsErrorKind::BoundsOverlap)),
    }
    assert_eq!(bounds.upper(), 1);
}

#[test]
fn truthful_search_converges_quickly() {
    // span 99 < 2^7, so any hidden target is found within 8 guesses
    let target: i64 = 73;
    let mut bounds = Bounds::build().lower(1).upper(100).create().unwrap();
    loop {
        let g = bounds.guess();
        if g == target {
            break;
        }
        let reply = if g > target { Reply::TooHigh(g) } else { Reply::TooLow(g) };
        bounds.adj_bounds(reply).unwrap();
    }
    assert!(bounds.tries() <= 8);
}

#[test]
fn every_target_in_a_small_range_is_found() {
    for target in -5..=6 {
        // span 11 < 2^4: at most 5 guesses
        let mut bounds = Bounds::build().lower(-5).upper(6).create().unwrap();
        loop {
            let g = bounds.guess();
            if g == target {
                break;
            }
            let reply = if g > target { Reply::TooHigh(g) } else { Reply::TooLow(g) };
            bounds.adj_bounds(reply).unwrap();
        }
        assert!(bounds.tries() <= 5);
    }
}

#[test]
fn answers_are_read_case_insensitively_after_trimming() {
    assert!(matches!(get_answer(" H\n", 42), Some(Reply::TooHigh(42))));
    assert!(matches!(get_answer("h", 7), Some(Reply::TooHigh(7))));
    assert!(matches!(get_answer("\tl ", 7), Some(Reply::TooLow(7))));
    assert!(matches!(get_answer("L", 7), Some(Reply::TooLow(7))));
    assert!(matches!(get_answer("c", 7), Some(Reply::Correct)));
    assert!(matches!(get_answer(" C ", 7), Some(Reply::Correct)));
}

#[test]
fn other_answers_are_rejected() {
    assert!(get_answer("", 7).is_none());
    assert!(get_answer("   ", 7).is_none());
    assert!(get_answer("x", 7).is_none());
    assert!(get_answer("hh", 7).is_none());
    assert!(get_answer("too high", 7).is_none());
}
