use std::collections::HashMap;

use urban_recreation::ability::{Ability, AbilityType};
use urban_recreation::card::{BaseCard, Hand};
use urban_recreation::catalog::Catalog;
use urban_recreation::game::{Game, GameStatus, PlayerType, Selection};
use urban_recreation::middle::Estimate;
use urban_recreation::solver::{GameResult, SelectionResult, Solver};
use urban_recreation::solver_2::{ResultsTree, Solver2};
use urban_recreation::types::{Clan, Rarity};

fn card(id: u32, name: &str, level: u8, power: u8, damage: u8) -> BaseCard {
    BaseCard {
        id,
        name: name.to_string(),
        clan: Clan::Bangers,
        level,
        level_max: 5,
        power,
        damage,
        rarity: Rarity::COMMON,
        ability_id: 0,
        ability: String::new(),
        bonus_id: 0,
        bonus: String::new(),
        year: 2010,
    }
}

fn catalog() -> Catalog {
    let mut abilities = HashMap::new();
    abilities.insert(0, Ability::new(AbilityType::Ability, &vec![], &vec![]).unwrap());
    Catalog::new(
        vec![
            card(1, "One", 1, 10, 4),
            card(2, "Two", 2, 10, 4),
            card(3, "Three", 3, 10, 4),
            card(4, "Four", 4, 10, 4),
            card(11, "Genmaicha", 3, 7, 7),
            card(12, "Orka", 4, 8, 7),
            card(13, "Sando", 2, 6, 8),
            card(14, "Deborah", 5, 8, 7),
            card(15, "Nathan", 2, 7, 7),
            card(16, "El Kuzco", 5, 9, 8),
            card(17, "Noon Steevens", 3, 7, 7),
            card(18, "Strygia", 4, 8, 8),
        ],
        abilities,
    )
}

fn fresh(catalog: &Catalog) -> Game {
    let h1 = Hand::from_ids(catalog, 1, 2, 3, 4).unwrap();
    let h2 = Hand::from_ids(catalog, 1, 2, 3, 4).unwrap();
    Game::with_fresh_hands(h1, h2, catalog).unwrap()
}

/// A match before its last round: the opponent opens it without pillz, the
/// player has two, and whoever loses the round has lost.
fn last_round(catalog: &Catalog) -> Game {
    let mut game = fresh(catalog);
    for index in 0..3 {
        game.select_both(Selection::new(index, 0, false), Selection::new(index, 0, false), catalog);
    }
    game.p1.life = 4;
    game.p2.life = 4;
    game.p1.pillz = 2;
    game.p2.pillz = 0;
    game
}

/// A match in round 0 in which each side has one pillz and whoever loses the
/// round has lost.
fn sudden_death(catalog: &Catalog) -> Game {
    let mut game = fresh(catalog);
    game.p1.life = 4;
    game.p2.life = 4;
    game.p1.pillz = 1;
    game.p2.pillz = 1;
    game
}

#[test]
fn a_decided_match_is_answered_without_a_search() {
    let catalog = catalog();
    let mut game = fresh(&catalog);
    for index in 0..4 {
        game.select_both(Selection::new(index, 0, false), Selection::new(index, 0, false), &catalog);
    }
    assert_eq!(game.round, 4);
    assert_eq!((game.p1.life, game.p2.life), (4, 4));
    assert_eq!(game.status(), GameStatus::Draw);
    assert_eq!(Solver::solve_first(&game, &catalog), SelectionResult::Draw(Selection::default()));
    game.p1.life = 5;
    assert_eq!(game.status(), GameStatus::Player);
    assert_eq!(Solver::solve_first(&game, &catalog), SelectionResult::Player(Selection::default()));
    assert_eq!(Solver::solve(&game, &catalog), SelectionResult::Player(Selection::default()));
    game.p2.life = 9;
    assert_eq!(game.status(), GameStatus::Opponent);
    assert_eq!(
        Solver::solve_first(&game, &catalog),
        SelectionResult::Opponent(Selection::default())
    );
    // a match that a player without life has lost before the last round
    let mut early = fresh(&catalog);
    early.p2.life = 0;
    assert_eq!(Solver::solve_first(&early, &catalog), SelectionResult::Player(Selection::default()));
}

#[test]
fn a_single_move_is_found_with_what_it_leads_to() {
    let catalog = catalog();
    for (life1, life2) in [(4, 4), (9, 4), (4, 9), (12, 12), (8, 5)] {
        let mut game = last_round(&catalog);
        game.p1.life = life1;
        game.p2.life = life2;
        game.p1.pillz = 0;
        let only = Selection::new(3, 0, false);
        let found = Solver::solve_first(&game, &catalog);
        assert_eq!(*found.selection(), only);
        let mut direct = game.clone();
        assert!(direct.can_select(3, 0, false));
        direct.select(3, 0, false, &catalog);
        direct.select(3, 0, false, &catalog);
        let expected = match direct.status() {
            GameStatus::Player => SelectionResult::Player(only),
            GameStatus::Opponent => SelectionResult::Opponent(only),
            GameStatus::Draw => SelectionResult::Draw(only),
            GameStatus::Playing => panic!("the last round decides the match"),
        };
        assert_eq!(found, expected);
        // and for the side that replies
        game.select(3, 0, false, &catalog);
        assert_eq!(Solver::solve_first(&game, &catalog), expected);
        assert_eq!(Solver::solve_second(&game, &catalog), expected);
    }
}

#[test]
fn the_first_move_that_wins_is_found() {
    let catalog = catalog();
    let mut game = last_round(&catalog);
    assert_eq!(game.get_turn(), PlayerType::Opponent);
    // the opponent has one move, and the player an answer that wins
    let opening = Solver::solve_first(&game, &catalog);
    assert_eq!(opening, SelectionResult::Player(Selection::new(3, 0, false)));
    assert_eq!(opening.verdict(PlayerType::Opponent), GameResult::Lose);
    assert_eq!(opening.verdict(PlayerType::Player), GameResult::Win);
    assert_eq!(Solver::solve(&game, &catalog), opening);
    game.select(3, 0, false, &catalog);
    assert_eq!(game.get_turn(), PlayerType::Player);
    let answer = SelectionResult::Player(Selection::new(3, 2, false));
    assert_eq!(Solver::solve_first(&game, &catalog), answer);
    assert_eq!(Solver::solve_second(&game, &catalog), answer);
    assert_eq!(Solver::solve(&game, &catalog), answer);
    // without pillz the player cannot beat the side that opened
    game.p1.pillz = 0;
    let lost = SelectionResult::Opponent(Selection::new(3, 0, false));
    assert_eq!(Solver::solve_first(&game, &catalog), lost);
    assert_eq!(Solver::solve_second(&game, &catalog), lost);
    assert_eq!(lost.verdict(PlayerType::Player), GameResult::Lose);
    assert_eq!(SelectionResult::Draw(Selection::default()).verdict(PlayerType::Player), GameResult::Draw);
}

#[test]
fn a_draw_is_better_than_a_loss() {
    let catalog = catalog();
    let mut game = last_round(&catalog);
    // the player, far behind, replies; with two pillz it wins the round and draws the match
    game.p1.life = 4;
    game.p2.life = 8;
    game.p1.life = 4;
    game.h1.cards[3].damage.value = 4;
    game.select(3, 0, false, &catalog);
    let found = Solver::solve_second(&game, &catalog);
    assert_eq!(found, SelectionResult::Draw(Selection::new(3, 1, false)));
    // the search for the side that moves keeps the first draw it sees
    assert_eq!(
        Solver::solve_first(&game, &catalog),
        SelectionResult::Draw(Selection::new(3, 2, false))
    );
}

#[test]
fn the_search_looks_rounds_ahead() {
    let catalog = catalog();
    let mut game = fresh(&catalog);
    game.select_both(Selection::new(0, 0, false), Selection::new(0, 0, false), &catalog);
    game.select_both(Selection::new(1, 0, false), Selection::new(1, 0, false), &catalog);
    game.p1.life = 8;
    game.p2.life = 4;
    game.p1.pillz = 3;
    game.p2.pillz = 1;
    // round 2: the player opens and wins at once with more pillz than the opponent has
    let found = Solver::solve_first(&game, &catalog);
    assert_eq!(found.verdict(PlayerType::Player), GameResult::Win);
    let selection = *found.selection();
    let mut after = game.clone();
    assert!(after.can_select(selection.index, selection.pillz, selection.fury));
    after.select(selection.index, selection.pillz, selection.fury, &catalog);
    // whatever the opponent answers, the player wins
    for index in 2..4 {
        for pillz in 0..=1 {
            let mut end = after.clone();
            end.select(index, pillz, false, &catalog);
            let result = match end.status() {
                GameStatus::Playing => Solver::solve_first(&end, &catalog).verdict(PlayerType::Player),
                GameStatus::Player => GameResult::Win,
                GameStatus::Draw => GameResult::Draw,
                GameStatus::Opponent => GameResult::Lose,
            };
            assert_eq!(result, GameResult::Win);
        }
    }
}

#[test]
fn moves_are_ranked_by_the_share_of_answers_they_hold_against() {
    let catalog = catalog();
    let mut game = last_round(&catalog);
    // the opponent opens: its one move holds against one of the player's three answers
    let opening = Solver::middle_first(&game, &catalog);
    assert_eq!(
        opening,
        Estimate { selection: Selection::new(3, 0, false), rate: 3, wins: 1, draws: 0, losses: 2 }
    );
    assert_eq!(Solver::middle(&game, &catalog), opening);
    game.select(3, 0, false, &catalog);
    // the player replies: two of its moves win, the one with fewer pillz is preferred
    let reply = Solver::middle_second(&game, &catalog);
    assert_eq!(
        reply,
        Estimate { selection: Selection::new(3, 1, false), rate: 10, wins: 1, draws: 0, losses: 0 }
    );
    assert_eq!(Solver::middle(&game, &catalog), reply);
}

#[test]
fn every_move_of_a_card_has_its_estimate() {
    let catalog = catalog();
    let mut game = last_round(&catalog);
    let e = |pillz, rate, wins, losses| Estimate {
        selection: Selection::new(3, pillz, false),
        rate,
        wins,
        draws: 0,
        losses,
    };
    assert_eq!(Solver::estimates_first(&game, &catalog, 3, false), vec![e(0, 3, 1, 2)]);
    // against answers of at least one pillz the opening move never holds
    assert_eq!(Solver::estimates_first(&game, &catalog, 3, true), vec![e(0, 0, 0, 2)]);
    game.select(3, 0, false, &catalog);
    assert_eq!(
        Solver::estimates_second(&game, &catalog, 3, false),
        vec![e(2, 10, 1, 0), e(0, 0, 0, 1), e(1, 10, 1, 0)]
    );
    // no wager of at least one pillz to reply to: nothing is counted
    assert_eq!(
        Solver::estimates_second(&game, &catalog, 3, true),
        vec![e(2, 0, 0, 0), e(0, 0, 0, 0), e(1, 0, 0, 0)]
    );
}

#[test]
fn in_round_0_the_cards_are_searched_apart() {
    let catalog = catalog();
    let mut game = sudden_death(&catalog);
    // with a pillz each the lower level wins, and on equal levels the player, who opens
    for index in 0..4 {
        let found = Solver::middle_first_card(&game, &catalog, index);
        let wins = 4 - index as u32;
        assert_eq!(
            found,
            Estimate {
                selection: Selection::new(index, 1, false),
                rate: 10 * wins / 4,
                wins,
                draws: 0,
                losses: index as u32,
            }
        );
    }
    let best = Estimate { selection: Selection::new(0, 1, false), rate: 10, wins: 4, draws: 0, losses: 0 };
    assert_eq!(Solver::middle_first_par(&game, &catalog), best);
    assert_eq!(Solver::middle(&game, &catalog), best);
    // the opponent replies to the player's third card
    game.select(2, 1, false, &catalog);
    let holds = |index| Estimate {
        selection: Selection::new(index, 1, false),
        rate: 10,
        wins: 1,
        draws: 0,
        losses: 0,
    };
    // a card that never holds is named with its cheapest move and what was counted for it
    let fails = |index| Estimate {
        selection: Selection::new(index, 0, false),
        rate: 0,
        wins: 0,
        draws: 0,
        losses: 1,
    };
    assert_eq!(Solver::middle_second_card(&game, &catalog, 0), holds(0));
    assert_eq!(Solver::middle_second_card(&game, &catalog, 1), holds(1));
    assert_eq!(Solver::middle_second_card(&game, &catalog, 2), fails(2));
    assert_eq!(Solver::middle_second_card(&game, &catalog, 3), fails(3));
    // of two cards that hold as well the later one is named
    assert_eq!(Solver::middle_second_par(&game, &catalog), holds(1));
    assert_eq!(Solver::middle(&game, &catalog), holds(1));
}

#[test]
fn the_best_of_several_estimates() {
    let e = |index, pillz, rate| Estimate {
        selection: Selection::new(index, pillz, false),
        rate,
        wins: 0,
        draws: 0,
        losses: 0,
    };
    assert_eq!(Solver::best_estimate(&vec![e(0, 3, 5)]), e(0, 3, 5));
    assert_eq!(Solver::best_estimate(&vec![e(0, 3, 5), e(1, 3, 6), e(2, 0, 5)]), e(1, 3, 6));
    // with the same rate fewer pillz are better
    assert_eq!(Solver::best_estimate(&vec![e(0, 3, 5), e(1, 2, 5), e(2, 4, 5)]), e(1, 2, 5));
    // with the same rate and pillz the last one is named
    assert_eq!(Solver::best_estimate(&vec![e(0, 3, 5), e(1, 3, 5), e(2, 4, 5)]), e(1, 3, 5));
    assert_eq!(Solver::best_estimate(&vec![e(0, 30, 10), e(1, 0, 9)]), e(0, 30, 10));
}

fn leaves(tree: &ResultsTree) -> usize {
    match tree {
        ResultsTree::Moves(entries) => entries.iter().map(|(_, under)| leaves(under)).sum(),
        _ => 1,
    }
}

#[test]
fn the_tree_of_a_last_round() {
    let catalog = catalog();
    let game = last_round(&catalog);
    let tree = Solver2::fill_tree(&game, &catalog);
    assert_eq!(tree.len(), 1);
    assert_eq!(tree[0].0, Selection::new(3, 0, false));
    match &tree[0].1 {
        ResultsTree::Moves(answers) => {
            let selections: Vec<Selection> = answers.iter().map(|(s, _)| *s).collect();
            assert_eq!(
                selections,
                vec![Selection::new(3, 2, false), Selection::new(3, 0, false), Selection::new(3, 1, false)]
            );
            assert!(matches!(answers[0].1, ResultsTree::PlayerWin));
            assert!(matches!(answers[1].1, ResultsTree::OpponentWin));
            assert!(matches!(answers[2].1, ResultsTree::PlayerWin));
        }
        other => panic!("{:?}", other),
    }
    assert_eq!(tree[0].1.worst_score(), -2);
    assert_eq!(ResultsTree::PlayerWin.worst_score(), 2);
    assert_eq!(ResultsTree::Draw.worst_score(), 1);
    assert_eq!(ResultsTree::OpponentWin.worst_score(), -2);
    assert_eq!(ResultsTree::Moves(vec![]).worst_score(), 1);
    assert_eq!(
        ResultsTree::Moves(vec![(Selection::default(), ResultsTree::PlayerWin)]).worst_score(),
        1
    );
    // the same round with both sides selecting at once
    let tree = Solver2::fill_tree_abab(&game, &catalog);
    let selections: Vec<Selection> = tree.iter().map(|(s, _)| *s).collect();
    assert_eq!(
        selections,
        vec![Selection::new(3, 2, false), Selection::new(3, 0, false), Selection::new(3, 1, false)]
    );
    for (i, (_, under)) in tree.iter().enumerate() {
        match under {
            ResultsTree::Moves(answers) => {
                assert_eq!(answers.len(), 1);
                assert_eq!(answers[0].0, Selection::new(3, 0, false));
                assert_eq!(matches!(answers[0].1, ResultsTree::OpponentWin), i == 1);
                assert_eq!(matches!(answers[0].1, ResultsTree::PlayerWin), i != 1);
            }
            other => panic!("{:?}", other),
        }
    }
}

#[test]
fn the_tree_follows_the_card_that_the_opponent_has_selected() {
    let catalog = catalog();
    let mut game = fresh(&catalog);
    game.p1.pillz = 0;
    game.p2.pillz = 0;
    game.p1.life = 4;
    game.p2.life = 4;
    let tree = Solver2::fill_tree_abab(&game, &catalog);
    assert_eq!(tree.len(), 4);
    assert_eq!(leaves(&ResultsTree::Moves(tree)), 16);
    game.flip = 1;
    game.select(2, 0, false, &catalog);
    assert_eq!(game.s2, Some(Selection::new(2, 0, false)));
    let tree = Solver2::fill_tree_abab(&game, &catalog);
    assert_eq!(tree.len(), 4);
    for (_, under) in tree.iter() {
        match under {
            ResultsTree::Moves(answers) => {
                assert_eq!(answers.len(), 1);
                assert_eq!(answers[0].0.index, 2);
            }
            other => panic!("{:?}", other),
        }
    }
    // one side's moves after the other's
    let tree = Solver2::fill_tree(&game, &catalog);
    assert_eq!(tree.len(), 4);
    assert_eq!(leaves(&ResultsTree::Moves(tree)), 4);
}

fn holds_no_selection_twice(tree: &ResultsTree) -> bool {
    match tree {
        ResultsTree::Moves(entries) => {
            let mut seen: Vec<Selection> = vec![];
            for (selection, under) in entries.iter() {
                if seen.contains(selection) || !holds_no_selection_twice(under) {
                    return false;
                }
                seen.push(*selection);
            }
            true
        }
        _ => true,
    }
}

#[test]
fn no_map_of_a_tree_holds_a_selection_twice() {
    let catalog = catalog();
    assert!(holds_no_selection_twice(&ResultsTree::Draw));
    assert!(!holds_no_selection_twice(&ResultsTree::Moves(vec![
        (Selection::new(1, 2, false), ResultsTree::Draw),
        (Selection::new(1, 2, false), ResultsTree::PlayerWin),
    ])));
    // two rounds to go, with enough pillz for every kind of move
    let mut game = fresh(&catalog);
    for index in 0..2 {
        game.select_both(Selection::new(index, 0, false), Selection::new(index, 0, false), &catalog);
    }
    game.p1.life = 9;
    game.p2.life = 9;
    game.p1.pillz = 5;
    game.p2.pillz = 4;
    let tree = Solver2::fill_tree(&game, &catalog);
    // two cards with the nine moves of a pool of five
    assert_eq!(tree.len(), 18);
    assert!(holds_no_selection_twice(&ResultsTree::Moves(tree)));
    let tree = Solver2::fill_tree_abab(&game, &catalog);
    assert_eq!(tree.len(), 18);
    match &tree[0].1 {
        ResultsTree::Moves(answers) => assert_eq!(answers.len(), 14),
        other => panic!("{:?}", other),
    }
    assert!(holds_no_selection_twice(&ResultsTree::Moves(tree)));
}

#[test]
fn of_moves_that_hold_as_well_the_one_with_fewer_pillz_is_named() {
    let catalog = catalog();
    // with two pillz against none every move with a pillz wins, and the first card without any
    let mut game = sudden_death(&catalog);
    game.p1.pillz = 2;
    game.p2.pillz = 0;
    let all = |index, pillz, wins| Estimate {
        selection: Selection::new(index, pillz, false),
        rate: 10,
        wins,
        draws: 0,
        losses: 0,
    };
    assert_eq!(Solver::middle_first(&game, &catalog), all(0, 0, 4));
    // one that holds more often is named whatever it costs
    assert_eq!(
        Solver::estimates_first(&game, &catalog, 1, false),
        vec![
            all(1, 2, 4),
            Estimate { selection: Selection::new(1, 0, false), rate: 7, wins: 3, draws: 0, losses: 1 },
            all(1, 1, 4),
        ]
    );
    // against one pillz: two pillz always win, one wins for the first card, which has the
    // lowest level
    game.p2.pillz = 1;
    assert_eq!(
        Solver::estimates_first(&game, &catalog, 0, false),
        vec![
            all(0, 2, 8),
            Estimate { selection: Selection::new(0, 0, false), rate: 5, wins: 4, draws: 0, losses: 4 },
            all(0, 1, 8),
        ]
    );
    assert_eq!(Solver::middle_first(&game, &catalog), all(0, 1, 8));
    // card by card, against the answers of at least one pillz
    assert_eq!(Solver::middle_first_card(&game, &catalog, 0), all(0, 1, 4));
    assert_eq!(Solver::middle_first_card(&game, &catalog, 1), all(1, 2, 4));
    assert_eq!(Solver::middle_first_card(&game, &catalog, 3), all(3, 2, 4));
    assert_eq!(Solver::middle_first_par(&game, &catalog), all(0, 1, 4));
    assert_eq!(Solver::middle(&game, &catalog), all(0, 1, 4));
}

#[test]
fn in_later_rounds_the_cards_searched_apart_are_those_not_played() {
    let catalog = catalog();
    // the last round: the opponent opens it with one pillz against two
    let mut game = last_round(&catalog);
    game.p2.pillz = 1;
    let e = |pillz, rate, wins, losses| Estimate {
        selection: Selection::new(3, pillz, false),
        rate,
        wins,
        draws: 0,
        losses,
    };
    assert_eq!(Solver::middle_first(&game, &catalog), e(1, 6, 2, 1));
    assert_eq!(Solver::middle(&game, &catalog), e(1, 6, 2, 1));
    // searched apart, a card is held against the answers of at least one pillz
    assert_eq!(Solver::middle_first_card(&game, &catalog, 3), e(1, 5, 1, 1));
    assert_eq!(Solver::middle_first_par(&game, &catalog), e(1, 5, 1, 1));
    game.select(3, 1, false, &catalog);
    assert_eq!(Solver::middle_second(&game, &catalog), e(2, 10, 2, 0));
    assert_eq!(Solver::middle_second_card(&game, &catalog, 3), e(2, 10, 1, 0));
    assert_eq!(Solver::middle_second_par(&game, &catalog), e(2, 10, 1, 0));
    // after four rounds no card is left
    let mut over = fresh(&catalog);
    over.p1.life = 100;
    over.p2.life = 100;
    for index in 0..4 {
        over.select_both(Selection::new(index, 0, false), Selection::new(index, 0, false), &catalog);
    }
    let nothing = Estimate { selection: Selection::default(), rate: 0, wins: 0, draws: 0, losses: 0 };
    assert_eq!(Solver::middle_first_par(&over, &catalog), nothing);
}

/// A match before its last round in which the side that opens it has the
/// card of the higher level and no pillz against two: it loses whatever it
/// does.
fn lost_round(catalog: &Catalog, opener_is_player: bool) -> Game {
    let low = Hand::from_ids(catalog, 4, 3, 2, 1).unwrap();
    let high = Hand::from_ids(catalog, 1, 2, 3, 4).unwrap();
    let mut game = if opener_is_player {
        Game::with_fresh_hands(high, low, catalog).unwrap()
    } else {
        Game::with_fresh_hands(low, high, catalog).unwrap()
    };
    game.flip = if opener_is_player { 1 } else { 0 };
    game.p1.life = 100;
    game.p2.life = 100;
    for index in 0..3 {
        game.select_both(Selection::new(index, 0, false), Selection::new(index, 0, false), catalog);
    }
    game.p1.life = 4;
    game.p2.life = 4;
    game.p1.pillz = if opener_is_player { 0 } else { 2 };
    game.p2.pillz = if opener_is_player { 2 } else { 0 };
    game
}

#[test]
fn a_side_that_never_holds_is_still_told_a_move_that_it_can_make() {
    let catalog = catalog();
    for opener_is_player in [false, true] {
        let game = lost_round(&catalog, opener_is_player);
        assert_eq!(game.round, 3);
        assert_eq!(
            game.get_turn(),
            if opener_is_player { PlayerType::Player } else { PlayerType::Opponent }
        );
        assert!(game.get_turn_hand().cards[0].played);
        let lost = |losses| Estimate {
            selection: Selection::new(3, 0, false),
            rate: 0,
            wins: 0,
            draws: 0,
            losses,
        };
        let found = Solver::middle_first(&game, &catalog);
        assert_eq!(found, lost(3));
        assert!(game.can_select(found.selection.index, found.selection.pillz, found.selection.fury));
        assert_eq!(Solver::middle(&game, &catalog), lost(3));
        assert_eq!(Solver::middle_first_card(&game, &catalog, 3), lost(2));
        assert_eq!(Solver::middle_first_par(&game, &catalog), lost(2));
    }
    // the side that replies with the card of the higher level and no pillz
    let mut game = lost_round(&catalog, true);
    game.p1.pillz = 2;
    game.p2.pillz = 0;
    game.h1.cards[3].level = 1;
    game.h2.cards[3].level = 4;
    assert!(game.can_select(3, 1, false));
    game.select(3, 1, false, &catalog);
    assert_eq!(game.get_turn(), PlayerType::Opponent);
    let lost = |losses| Estimate {
        selection: Selection::new(3, 0, false),
        rate: 0,
        wins: 0,
        draws: 0,
        losses,
    };
    let found = Solver::middle_second(&game, &catalog);
    assert_eq!(found, lost(3));
    assert!(game.can_select(found.selection.index, found.selection.pillz, found.selection.fury));
    assert_eq!(Solver::middle(&game, &catalog), lost(3));
    assert_eq!(Solver::middle_second_card(&game, &catalog, 3), lost(2));
    assert_eq!(Solver::middle_second_par(&game, &catalog), lost(2));
}

#[test]
fn test_solver() {
    let catalog = catalog();
    let h1 = Hand::from_names(&catalog, "Genmaicha", "Orka", "Sando", "Deborah").unwrap();
    let h2 = Hand::from_names(&catalog, "Nathan", "El Kuzco", "Noon Steevens", "Strygia").unwrap();

    let mut game = Game::new(h1, h2, &catalog);
    game.flip = 0;

    game.select(1, 3, false, &catalog); // Orka
    game.select(3, 0, false, &catalog); // Strygia

    game.select(0, 4, false, &catalog); // Nathan

    let tree = Solver2::fill_tree_abab(&game, &catalog);
    println!("{} moves", tree.len());

    let best = Solver::solve(&game, &catalog);
    println!("{}", best.describe());

    let tree = ResultsTree::Moves(tree);
    println!("{} ends, worst score {}", leaves(&tree), tree.worst_score());
}
