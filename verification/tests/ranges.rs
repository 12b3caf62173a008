use urban_recreation::game::Selection;
use urban_recreation::solver::{
    shift_false_range, split_range, split_shift_range, SelectionResult,
};

#[test]
fn solver_test() {
    for i in 0..32 {
        println!("{:?}", split_range(i));
    }
}

#[test]
fn solver_2_test() {
    for i in 0..32 {
        println!("{:?}", split_range(i));
    }
}

#[test]
fn f() {
    println!("Test -> {}", SelectionResult::Player(Selection::default()).describe());
    println!("Test -> {}", SelectionResult::Draw(Selection::default()).describe());
    println!("Test -> {}", SelectionResult::Opponent(Selection::default()).describe());
}

#[test]
fn outcomes_in_words() {
    assert_eq!(SelectionResult::Player(Selection::default()).describe(), "Player(0 0 false)");
    assert_eq!(SelectionResult::Draw(Selection::new(3, 12, true)).describe(), "Draw(3 12 true)");
    assert_eq!(
        SelectionResult::Opponent(Selection::new(1, 255, false)).describe(),
        "Opponent(1 255 false)"
    );
    assert_eq!(Selection::new(2, 7, true).describe(), "2 7 true");
}

#[test]
fn split_range_lists_every_move() {
    assert_eq!(split_range(0), vec![(0, false)]);
    assert_eq!(split_range(2), vec![(0, false), (1, false), (2, false)]);
    assert_eq!(
        split_range(4),
        vec![(0, false), (1, false), (2, false), (3, false), (4, false), (0, true), (1, true)]
    );
    assert_eq!(split_range(12).len(), 13 + 10);
    assert_eq!(split_range(255).len(), 256 + 253);
}

#[test]
fn split_shift_range_starts_with_the_whole_pool() {
    assert_eq!(split_shift_range(0), vec![(0, false)]);
    assert_eq!(split_shift_range(2), vec![(2, false), (0, false), (1, false)]);
    assert_eq!(
        split_shift_range(3),
        vec![(3, false), (0, false), (1, false), (2, false), (0, true)]
    );
    assert_eq!(
        split_shift_range(5),
        vec![
            (5, false),
            (2, false),
            (0, false),
            (1, false),
            (3, false),
            (4, false),
            (2, true),
            (0, true),
            (1, true),
        ]
    );
}

#[test]
fn shift_false_range_has_no_fury_in_round_0() {
    assert_eq!(
        shift_false_range(4, 0),
        vec![(4, false), (0, false), (1, false), (2, false), (3, false)]
    );
    assert_eq!(shift_false_range(4, 1), split_shift_range(4));
    assert_eq!(shift_false_range(1, 0), vec![(1, false), (0, false)]);
}

#[test]
fn every_listed_move_is_affordable() {
    for n in 0..=255u8 {
        for (pillz, fury) in split_shift_range(n).into_iter().chain(split_range(n)) {
            let cost = pillz as u16 + if fury { 3 } else { 0 };
            assert!(cost <= n as u16);
        }
    }
}

#[test]
fn the_moves_for_a_pool_are_all_different() {
    for n in 0..=255u8 {
        let moves = split_shift_range(n);
        let expected = if n < 3 { n as usize + 1 } else { 2 * n as usize - 1 };
        assert_eq!(moves.len(), expected);
        for i in 0..moves.len() {
            for j in 0..i {
                assert_ne!(moves[i], moves[j]);
            }
        }
    }
}
