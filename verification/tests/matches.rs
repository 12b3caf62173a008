use std::collections::HashMap;

use urban_recreation::ability::{Ability, AbilityType, Condition};
use urban_recreation::card::{BaseCard, Hand};
use urban_recreation::catalog::Catalog;
use urban_recreation::game::{Game, GameStatus, PlayerType, RoundWin, Selection};
use urban_recreation::modifiers::{BasicModifier, EventTime, Modifier, RecoverModifier, Stat};
use urban_recreation::types::{Clan, Rarity};

fn card(id: u32, clan: Clan, level: u8, power: u8, damage: u8, ability: u32) -> BaseCard {
    BaseCard {
        id,
        name: format!("Card {}", id),
        clan,
        level,
        level_max: 5,
        power,
        damage,
        rarity: Rarity::COMMON,
        ability_id: ability,
        ability: String::new(),
        bonus_id: 0,
        bonus: String::new(),
        year: 2010,
    }
}

fn basic(kind: AbilityType, time: EventTime, stat: Stat, change: i32) -> Ability {
    let modifier = Modifier::Basic(BasicModifier {
        event_time: time,
        win: None,
        change,
        per: None,
        stat,
        opp: false,
        min: 0,
        max: 9999,
        always: false,
    });
    Ability::new(kind, &vec![modifier], &vec![]).unwrap()
}

fn catalog() -> Catalog {
    let mut abilities = HashMap::new();
    abilities.insert(0, Ability::new(AbilityType::Ability, &vec![], &vec![]).unwrap());
    abilities.insert(1, basic(AbilityType::Ability, EventTime::PRE2, Stat::Power, 3));
    abilities.insert(2, basic(AbilityType::Ability, EventTime::END, Stat::Pillz, 1));
    abilities.insert(3, basic(AbilityType::Ability, EventTime::POST2, Stat::Attack, 8));
    abilities.insert(4, basic(AbilityType::Global, EventTime::PRE3, Stat::Damage, 1));
    abilities.insert(5, basic(AbilityType::GlobalAbility, EventTime::END, Stat::Life, 1));
    abilities.insert(
        6,
        Ability::new(
            AbilityType::Ability,
            &vec![Modifier::Recover(RecoverModifier {
                event_time: EventTime::END,
                win: None,
                n: 1,
                out_of: 2,
            })],
            &vec![Condition::Defeat],
        )
        .unwrap(),
    );
    Catalog::new(
        vec![
            card(1, Clan::Bangers, 3, 10, 4, 0),
            card(2, Clan::Bangers, 2, 10, 4, 0),
            card(3, Clan::Bangers, 5, 20, 3, 0),
            card(4, Clan::Bangers, 4, 25, 20, 0),
            card(5, Clan::Roots, 3, 10, 254, 0),
            card(6, Clan::Roots, 3, 7, 2, 1),
            card(7, Clan::Roots, 3, 7, 2, 2),
            card(8, Clan::Roots, 3, 7, 2, 3),
            card(9, Clan::Leader, 3, 7, 2, 4),
            card(10, Clan::Junkz, 3, 7, 2, 5),
            card(11, Clan::Junkz, 3, 7, 2, 6),
        ],
        abilities,
    )
}

fn game(catalog: &Catalog, h1: [u32; 4], h2: [u32; 4]) -> Game {
    let h1 = Hand::from_ids(catalog, h1[0], h1[1], h1[2], h1[3]).unwrap();
    let h2 = Hand::from_ids(catalog, h2[0], h2[1], h2[2], h2[3]).unwrap();
    Game::with_fresh_hands(h1, h2, catalog).unwrap()
}

fn plain(catalog: &Catalog) -> Game {
    game(catalog, [1, 2, 3, 4], [1, 2, 3, 4])
}

#[test]
fn a_new_match() {
    let catalog = catalog();
    let game = plain(&catalog);
    assert_eq!(game.round, 0);
    assert_eq!(game.flip, 0);
    assert!(game.s1.is_none() && game.s2.is_none());
    assert!(!game.has_someone_selected());
    for (player, side) in [(game.p1, PlayerType::Player), (game.p2, PlayerType::Opponent)] {
        assert_eq!(player.player_type, side);
        assert_eq!((player.life, player.life_previous), (12, 12));
        assert_eq!((player.pillz, player.pillz_previous), (12, 12));
        assert_eq!((player.won, player.won_previous), (RoundWin::NONE, RoundWin::NONE));
    }
    assert_eq!(game.status(), GameStatus::Playing);
    assert_eq!(game.events1.events.len(), 10);
    assert!(game.events1.global.iter().all(|bucket| bucket.is_empty()));
    assert!(!game.has_global(&catalog));
}

#[test]
fn a_match_needs_unplayed_hands() {
    let catalog = catalog();
    let h1 = Hand::from_ids(&catalog, 1, 2, 3, 4).unwrap();
    let mut h2 = Hand::from_ids(&catalog, 1, 2, 3, 4).unwrap();
    h2.cards[2].played = true;
    assert!(Game::with_fresh_hands(h1, h2, &catalog).is_none());
    assert!(Game::with_fresh_hands(h1, h1, &catalog).is_some());
}

#[test]
fn the_leader_waits_from_the_start() {
    let catalog = catalog();
    let mut game = game(&catalog, [1, 2, 9, 3], [1, 2, 3, 4]);
    assert!(game.has_global(&catalog));
    assert_eq!(game.events1.global[2].len(), 1);
    assert_eq!(game.events1.global[2][0].ability_type, AbilityType::Global);
    assert!(game.events2.global.iter().all(|bucket| bucket.is_empty()));
    // the leader's ability acts in every round, whichever card is played
    game.select_both(Selection::new(0, 0, false), Selection::new(0, 0, false), &catalog);
    assert_eq!(game.h1.cards[0].damage.value, 5);
    assert_eq!(game.p2.life, 7);
    game.select_both(Selection::new(1, 1, false), Selection::new(1, 0, false), &catalog);
    assert_eq!(game.h1.cards[1].damage.value, 5);
    assert_eq!(game.p2.life, 2);
    assert_eq!(game.events1.global[2].len(), 1);
}

#[test]
fn turns_alternate_with_the_rounds() {
    let catalog = catalog();
    let mut game = plain(&catalog);
    assert_eq!(game.get_first_turn(), PlayerType::Player);
    assert_eq!(game.get_turn(), PlayerType::Player);
    assert_eq!(game.get_turn_player().player_type, PlayerType::Player);
    assert_eq!(game.get_turn_opponent().player_type, PlayerType::Opponent);
    game.h2.cards[0].played = true;
    assert!(!game.get_turn_hand().cards[0].played);
    assert!(game.get_turn_opponent_hand().cards[0].played);
    game.h2.cards[0].played = false;
    game.select(0, 0, false, &catalog);
    assert!(game.has_someone_selected());
    assert_eq!(game.s1, Some(Selection::new(0, 0, false)));
    assert_eq!(game.get_first_turn(), PlayerType::Player);
    assert_eq!(game.get_turn(), PlayerType::Opponent);
    assert_eq!(game.get_turn_player().player_type, PlayerType::Opponent);
    game.select(0, 0, false, &catalog);
    assert_eq!(game.round, 1);
    assert_eq!(game.get_first_turn(), PlayerType::Opponent);
    assert_eq!(game.get_turn(), PlayerType::Opponent);
    game.select(1, 0, false, &catalog);
    assert_eq!(game.s2, Some(Selection::new(1, 0, false)));
    assert_eq!(game.get_turn(), PlayerType::Player);
    game.clear_selection();
    assert!(game.s1.is_none() && game.s2.is_none());
    assert_eq!(game.get_turn(), PlayerType::Opponent);
    // with the other side opening the even rounds
    let mut flipped = plain(&catalog);
    flipped.flip = 1;
    assert_eq!(flipped.get_first_turn(), PlayerType::Opponent);
    assert_eq!(flipped.get_turn(), PlayerType::Opponent);
    assert!(!flipped.select(2, 1, false, &catalog));
    assert_eq!(flipped.s2, Some(Selection::new(2, 1, false)));
    assert_eq!(flipped.get_turn(), PlayerType::Player);
}

#[test]
fn what_may_be_selected() {
    let catalog = catalog();
    let mut game = plain(&catalog);
    assert!(game.can_select(0, 0, false));
    assert!(game.can_select(3, 12, false));
    assert!(!game.can_select(3, 13, false));
    assert!(game.can_select(0, 9, true));
    assert!(!game.can_select(0, 10, true));
    assert!(!game.can_select(4, 0, false));
    assert!(!game.can_select(usize::MAX, 0, false));
    assert!(!game.can_select(0, 255, true));
    game.p1.pillz = 2;
    assert!(game.can_select(0, 2, false));
    assert!(!game.can_select(0, 0, true));
    game.select(1, 2, false, &catalog);
    // now the other side: its pool and its hand count
    assert!(game.can_select(1, 12, false));
    game.select(1, 0, false, &catalog);
    assert!(!game.can_select(1, 0, false));
    assert!(game.can_select(0, 0, false));
}

#[test]
fn where_a_match_stands() {
    let catalog = catalog();
    let mut game = plain(&catalog);
    assert_eq!(game.status(), GameStatus::Playing);
    game.p1.life = 0;
    assert_eq!(game.status(), GameStatus::Opponent);
    game.p2.life = 0;
    assert_eq!(game.status(), GameStatus::Draw);
    game.p1.life = 3;
    assert_eq!(game.status(), GameStatus::Player);
    // while one side has selected the match is being played
    game.s1 = Some(Selection::default());
    assert_eq!(game.status(), GameStatus::Playing);
    game.s2 = Some(Selection::default());
    assert_eq!(game.status(), GameStatus::Player);
    game.clear_selection();
    game.p2.life = 3;
    game.round = 4;
    assert_eq!(game.status(), GameStatus::Draw);
    game.p2.life = 4;
    assert_eq!(game.status(), GameStatus::Opponent);
    game.p1.life = 5;
    assert_eq!(game.status(), GameStatus::Player);
    game.round = 3;
    assert_eq!(game.status(), GameStatus::Playing);
}

#[test]
fn attack_is_power_times_one_more_than_the_pillz() {
    let catalog = catalog();
    let mut game = plain(&catalog);
    // 20 * 13 = 260 against 25 * 10 = 250
    game.select_both(Selection::new(2, 12, false), Selection::new(3, 9, false), &catalog);
    assert_eq!(game.h1.cards[2].attack.value, 260);
    assert_eq!(game.h2.cards[3].attack.value, 250);
    assert!(game.h1.cards[2].won);
    assert_eq!(game.p2.life, 9);
    assert_eq!(game.p1.pillz, 0);
    assert_eq!(game.p2.pillz, 3);
    // 25 * 1 against 10 * 4
    let mut game = plain(&catalog);
    game.p1.life = 30;
    game.select_both(Selection::new(3, 0, false), Selection::new(0, 3, false), &catalog);
    assert_eq!(game.h1.cards[3].attack.value, 25);
    assert_eq!(game.h2.cards[0].attack.value, 40);
    assert_eq!(game.p1.life, 26);
    assert_eq!(game.p1.life_previous, 30);
}

#[test]
fn equal_attacks_go_to_the_lower_level_then_to_the_side_that_opened() {
    let catalog = catalog();
    // level 3 against level 2: the second side wins though it did not open
    let mut game = plain(&catalog);
    game.select_both(Selection::new(0, 0, false), Selection::new(1, 0, false), &catalog);
    assert_eq!(game.p2.won, RoundWin::WIN);
    assert_eq!(game.p1.life, 8);
    // 20 * 1 against 10 * 2, level 5 against level 3
    let mut game = plain(&catalog);
    game.select_both(Selection::new(2, 0, false), Selection::new(0, 1, false), &catalog);
    assert_eq!(game.p2.won, RoundWin::WIN);
    // equal levels: the side that opens the round
    let mut game = plain(&catalog);
    game.select_both(Selection::new(0, 0, false), Selection::new(0, 0, false), &catalog);
    assert_eq!(game.p1.won, RoundWin::WIN);
    game.select_both(Selection::new(1, 0, false), Selection::new(1, 0, false), &catalog);
    assert_eq!(game.p2.won, RoundWin::WIN);
    assert_eq!(game.p2.won_previous, RoundWin::LOSE);
    let mut flipped = plain(&catalog);
    flipped.flip = 1;
    flipped.select_both(Selection::new(0, 0, false), Selection::new(0, 0, false), &catalog);
    assert_eq!(flipped.p2.won, RoundWin::WIN);
}

#[test]
fn fury_adds_two_damage_and_life_stops_at_nothing() {
    let catalog = catalog();
    let mut game = game(&catalog, [5, 6, 7, 8], [1, 2, 3, 4]);
    game.select_both(Selection::new(0, 3, true), Selection::new(0, 0, false), &catalog);
    // 254 + 2 stays at 255
    assert_eq!(game.h1.cards[0].damage.value, 255);
    assert_eq!(game.p2.life, 0);
    assert_eq!(game.p1.pillz, 6);
    assert_eq!(game.status(), GameStatus::Player);
    let mut game = plain(&catalog);
    game.select_both(Selection::new(3, 0, true), Selection::new(0, 0, false), &catalog);
    assert_eq!(game.h1.cards[3].damage.value, 22);
    assert_eq!(game.h1.cards[3].damage.base, 20);
    assert_eq!(game.p2.life, 0);
    assert_eq!(game.p1.pillz, 9);
}

#[test]
fn abilities_fire_at_their_checkpoints() {
    let catalog = catalog();
    // power 7 + 3, then 10 * 3 = 30
    let mut game = game(&catalog, [6, 7, 8, 11], [1, 2, 3, 4]);
    game.select_both(Selection::new(0, 2, false), Selection::new(0, 1, false), &catalog);
    assert_eq!(game.h1.cards[0].power.value, 10);
    assert_eq!(game.h1.cards[0].attack.value, 30);
    assert_eq!(game.h2.cards[0].attack.value, 20);
    // attack 7 * 2 + 8
    game.select_both(Selection::new(2, 1, false), Selection::new(1, 1, false), &catalog);
    assert_eq!(game.h1.cards[2].attack.value, 22);
    assert_eq!(game.h2.cards[1].attack.value, 20);
    // nothing of the round is left in the queues
    assert!(game.events1.events.iter().all(|bucket| bucket.is_empty()));
    assert!(game.events2.events.iter().all(|bucket| bucket.is_empty()));
}

#[test]
fn a_round_takes_the_pillz_spent_and_life_from_the_loser() {
    let catalog = catalog();
    for (s1, s2) in [
        (Selection::new(0, 0, false), Selection::new(0, 0, false)),
        (Selection::new(1, 5, true), Selection::new(2, 7, false)),
        (Selection::new(3, 9, true), Selection::new(3, 12, false)),
        (Selection::new(2, 12, false), Selection::new(1, 0, true)),
    ] {
        // only abilities that leave life and pillz alone: more power, more attack
        let mut game = game(&catalog, [6, 8, 6, 8], [1, 2, 3, 4]);
        let before = game.clone();
        game.select_both(s1, s2, &catalog);
        assert_eq!(game.p1.pillz as u16, before.p1.pillz as u16 - s1.cost());
        assert_eq!(game.p2.pillz as u16, before.p2.pillz as u16 - s2.cost());
        assert_eq!(game.p1.pillz_previous, 12);
        let (winner, loser, damage) = if game.p1.won == RoundWin::WIN {
            (game.p1, game.p2, game.h1.cards[s1.index].damage.value)
        } else {
            (game.p2, game.p1, game.h2.cards[s2.index].damage.value)
        };
        assert_eq!(winner.life, 12);
        assert_eq!(loser.life, 12u8.saturating_sub(damage));
        assert_eq!(loser.won, RoundWin::LOSE);
        assert_eq!(game.round, 1);
    }
}

#[test]
fn an_ability_may_give_pillz_back() {
    let catalog = catalog();
    // card 7 gains a pillz at the end of the round
    let mut game = game(&catalog, [7, 6, 8, 11], [1, 2, 3, 4]);
    game.select_both(Selection::new(0, 4, false), Selection::new(0, 0, false), &catalog);
    assert_eq!(game.p1.pillz, 12 - 4 + 1);
    // card 11 recovers half of its pillz where it loses: 5 + 3 spent, 4 back
    game.select_both(Selection::new(3, 5, true), Selection::new(3, 12, false), &catalog);
    assert_eq!(game.p1.won, RoundWin::LOSE);
    assert_eq!(game.p1.pillz, 9 - 8 + 4);
}

#[test]
fn a_lasting_ability_stays_in_the_queue() {
    let catalog = catalog();
    // card 10 heals one life at the end of each round once it has not lost its first
    let mut game = game(&catalog, [10, 6, 8, 11], [1, 2, 3, 4]);
    game.p1.life = 5;
    game.select_both(Selection::new(0, 12, false), Selection::new(0, 0, false), &catalog);
    assert_eq!(game.p1.won, RoundWin::WIN);
    assert_eq!(game.p1.life, 6);
    assert_eq!(game.events1.global[9].len(), 1);
    game.select_both(Selection::new(1, 0, false), Selection::new(1, 5, false), &catalog);
    assert_eq!(game.p1.won, RoundWin::LOSE);
    assert_eq!(game.p1.life, 6 - 4 + 1);
    // one that loses its first round is gone
    let mut game = crate::game(&catalog, [10, 6, 8, 11], [1, 2, 3, 4]);
    game.select_both(Selection::new(0, 0, false), Selection::new(0, 5, false), &catalog);
    assert_eq!(game.p1.life, 8);
    assert!(game.events1.global[9].is_empty());
    game.select_both(Selection::new(1, 5, false), Selection::new(1, 0, false), &catalog);
    assert_eq!(game.p1.life, 8);
}

#[test]
fn one_match_resolved_twice_ends_the_same() {
    let catalog = catalog();
    let start = game(&catalog, [10, 6, 9, 11], [7, 8, 3, 4]);
    let moves = [
        (Selection::new(2, 3, false), Selection::new(1, 2, true)),
        (Selection::new(0, 1, true), Selection::new(0, 4, false)),
        (Selection::new(3, 2, false), Selection::new(2, 0, false)),
    ];
    let mut one = start.clone();
    let mut two = start.clone();
    for (round, (s1, s2)) in moves.iter().enumerate() {
        one.select_both(*s1, *s2, &catalog);
        // the same selections made one after the other, by the side that opens first
        if round % 2 == 0 {
            assert!(!two.select(s1.index, s1.pillz, s1.fury, &catalog));
            assert!(two.select(s2.index, s2.pillz, s2.fury, &catalog));
        } else {
            assert!(!two.select(s2.index, s2.pillz, s2.fury, &catalog));
            assert!(two.select(s1.index, s1.pillz, s1.fury, &catalog));
        }
        assert_eq!(format!("{:?}", one), format!("{:?}", two));
    }
    let mut again = start.clone();
    for (s1, s2) in moves {
        again.select_both(s1, s2, &catalog);
    }
    assert_eq!(format!("{:?}", one), format!("{:?}", again));
    assert_eq!(one.round, 3);
}

#[test]
fn a_round_resolved_twice_ends_the_same() {
    let catalog = catalog();
    let mut start = game(&catalog, [10, 6, 9, 11], [7, 8, 3, 4]);
    start.s1 = Some(Selection::new(1, 4, true));
    start.s2 = Some(Selection::new(2, 6, false));
    let mut one = start.clone();
    let mut two = start.clone();
    one.battle(&catalog);
    two.battle(&catalog);
    assert_eq!(format!("{:?}", one), format!("{:?}", two));
    assert_eq!(one.round, 1);
    assert_eq!((one.p1.pillz, one.p2.pillz), (12 - 7, 12 - 6));
    // the selections stay until they are cleared
    assert_eq!(one.s1, start.s1);
    one.clear_selection();
    let mut both = start.clone();
    both.clear_selection();
    both.select_both(Selection::new(1, 4, true), Selection::new(2, 6, false), &catalog);
    assert_eq!(format!("{:?}", one), format!("{:?}", both));
}

#[test]
fn abilities_of_cards_that_are_not_played_do_not_count() {
    let catalog = catalog();
    // the hands hold cards that give pillz and life back, but those are not played
    let mut game = game(&catalog, [6, 7, 10, 11], [8, 11, 7, 1]);
    let before = game.clone();
    let (s1, s2) = (Selection::new(0, 3, true), Selection::new(0, 5, false));
    game.select_both(s1, s2, &catalog);
    assert_eq!(game.p1.pillz as u16, before.p1.pillz as u16 - s1.cost());
    assert_eq!(game.p2.pillz as u16, before.p2.pillz as u16 - s2.cost());
    // (7 + 3) * 4 = 40 against 7 * 6 + 8 = 50
    assert_eq!(game.p1.won, RoundWin::LOSE);
    assert_eq!(game.p2.life, before.p2.life);
    assert_eq!(game.h2.cards[0].damage.value, 2);
    assert_eq!(game.p1.life, before.p1.life - game.h2.cards[0].damage.value);
}

#[test]
fn pillz_are_paid_whatever_happens_to_life_and_life_is_lost_whatever_happens_to_pillz() {
    let catalog = catalog();
    // card 10 heals: life is not what the fight alone leaves, the pillz are
    let mut game = game(&catalog, [10, 7, 11, 6], [1, 2, 3, 4]);
    game.p1.life = 5;
    let (s1, s2) = (Selection::new(0, 3, true), Selection::new(0, 2, false));
    game.select_both(s1, s2, &catalog);
    assert_eq!(game.p1.won, RoundWin::LOSE);
    assert_eq!((game.p1.pillz, game.p2.pillz), (12 - 6, 12 - 2));
    // card 7 gains a pillz: the pillz are not what was paid, the life is what the fight leaves
    let (s1, s2) = (Selection::new(1, 4, false), Selection::new(1, 0, false));
    let before = game.clone();
    game.select_both(s1, s2, &catalog);
    assert_eq!(game.p1.won, RoundWin::WIN);
    assert_eq!(game.p1.pillz, before.p1.pillz - 4 + 1);
    assert_eq!(game.p1.life, before.p1.life);
    assert_eq!(game.p2.life, before.p2.life - game.h1.cards[1].damage.value);
    assert_eq!(game.h1.cards[1].damage.value, 2);
}

#[test]
fn an_ability_that_does_not_act_takes_and_gives_nothing() {
    let catalog = catalog();
    // card 11 would recover pillz after a defeat, but it wins
    let mut game = game(&catalog, [11, 6, 8, 7], [1, 2, 3, 4]);
    let (s1, s2) = (Selection::new(0, 5, false), Selection::new(0, 0, false));
    game.select_both(s1, s2, &catalog);
    assert_eq!(game.p1.won, RoundWin::WIN);
    assert_eq!((game.p1.pillz, game.p2.pillz), (12 - 5, 12));
    assert_eq!((game.p1.life, game.p2.life), (12, 12 - game.h1.cards[0].damage.value));
    // after a defeat it acts, and the pillz are not what was paid
    let mut game = crate::game(&catalog, [11, 6, 8, 7], [1, 2, 3, 4]);
    game.select_both(Selection::new(0, 4, false), Selection::new(0, 12, false), &catalog);
    assert_eq!(game.p1.won, RoundWin::LOSE);
    assert_eq!(game.p1.pillz, 12 - 4 + 2);
    assert_eq!(game.p1.life, 12 - game.h2.cards[0].damage.value);
}

#[test]
fn only_the_card_that_won_the_fight_is_marked_as_won() {
    let catalog = catalog();
    let mut game = game(&catalog, [6, 8, 10, 11], [1, 2, 3, 4]);
    let rounds = [
        (Selection::new(2, 0, false), Selection::new(1, 3, false)),
        (Selection::new(0, 5, false), Selection::new(3, 0, false)),
        (Selection::new(3, 1, true), Selection::new(0, 1, false)),
    ];
    for (s1, s2) in rounds {
        game.select_both(s1, s2, &catalog);
        assert_eq!(game.h1.cards[s1.index].won, game.p1.won == RoundWin::WIN);
        assert_eq!(game.h2.cards[s2.index].won, game.p2.won == RoundWin::WIN);
        assert_ne!(game.p1.won == RoundWin::WIN, game.p2.won == RoundWin::WIN);
        for hand in [game.h1, game.h2] {
            for card in hand.cards.iter() {
                assert!(card.played || !card.won);
            }
        }
    }
    assert_eq!(
        [game.p1.won, game.p1.won_previous, game.p2.won],
        [RoundWin::LOSE, RoundWin::WIN, RoundWin::WIN]
    );
}

#[test]
fn a_match_needs_hands_of_which_no_card_has_won() {
    let catalog = catalog();
    let h1 = Hand::from_ids(&catalog, 1, 2, 3, 4).unwrap();
    let mut h2 = h1;
    h2.cards[1].won = true;
    assert!(Game::with_fresh_hands(h1, h2, &catalog).is_none());
    assert!(Game::with_fresh_hands(h2, h1, &catalog).is_none());
    assert!(Game::with_fresh_hands(h1, h1, &catalog).is_some());
}

#[test]
fn four_rounds_play_all_cards() {
    let catalog = catalog();
    let mut game = plain(&catalog);
    game.p1.life = 100;
    game.p2.life = 100;
    for round in 0..4 {
        assert_eq!(game.status(), GameStatus::Playing);
        assert_eq!(game.round, round as u8);
        assert!(game.can_select(round, 0, false));
        game.select(round, 0, false, &catalog);
        assert!(game.can_select(round, 0, false));
        game.select(round, 0, false, &catalog);
        assert_eq!(game.h1.cards.iter().filter(|c| c.played).count(), round + 1);
        assert_eq!(game.h2.cards.iter().filter(|c| c.played).count(), round + 1);
    }
    assert_eq!(game.round, 4);
    assert_ne!(game.status(), GameStatus::Playing);
    for index in 0..4 {
        assert!(!game.can_select(index, 0, false));
    }
}
