use std::collections::HashMap;

use urban_recreation::ability::{Ability, AbilityType};
use urban_recreation::card::{BaseCard, Hand};
use urban_recreation::catalog::Catalog;
use urban_recreation::game::{Game, GameStatus, PlayerType, RoundWin};
use urban_recreation::types::{Clan, Rarity};

fn plain_card(id: u32, name: &str, clan: Clan, level: u8, power: u8, damage: u8) -> BaseCard {
    BaseCard {
        id,
        name: name.to_string(),
        clan,
        level,
        level_max: 5,
        power,
        damage,
        rarity: Rarity::COMMON,
        ability_id: 0,
        ability: "No ability".to_string(),
        bonus_id: 0,
        bonus: "No bonus".to_string(),
        year: 2006,
    }
}

fn plain_catalog() -> Catalog {
    let mut abilities = HashMap::new();
    abilities.insert(0, Ability::new(AbilityType::Ability, &vec![], &vec![]).unwrap());
    Catalog::new(vec![plain_card(1, "Brawler", Clan::Bangers, 3, 10, 4)], abilities)
}

fn plain_game(catalog: &Catalog) -> Game {
    let h1 = Hand::from_ids(catalog, 1, 1, 1, 1).unwrap();
    let h2 = Hand::from_ids(catalog, 1, 1, 1, 1).unwrap();
    Game::new(h1, h2, catalog)
}

#[test]
fn equal_cards_without_pillz_first_mover_wins() {
    let catalog = plain_catalog();
    let mut game = plain_game(&catalog);
    assert_eq!(game.flip, 0);
    assert_eq!(game.get_turn(), PlayerType::Player);
    assert!(game.can_select(0, 0, false));
    assert!(!game.select(0, 0, false, &catalog));
    assert_eq!(game.get_turn(), PlayerType::Opponent);
    assert!(game.can_select(0, 0, false));
    assert!(game.select(0, 0, false, &catalog));
    assert_eq!(game.h1.cards[0].attack.value, 10);
    assert_eq!(game.h2.cards[0].attack.value, 10);
    assert!(game.h1.cards[0].won);
    assert!(!game.h2.cards[0].won);
    assert_eq!(game.p1.won, RoundWin::WIN);
    assert_eq!(game.p2.won, RoundWin::LOSE);
    assert_eq!(game.p1.life, 12);
    assert_eq!(game.p2.life, 8);
    assert_eq!(game.p1.pillz, 12);
    assert_eq!(game.p2.pillz, 12);
    assert_eq!(game.round, 1);
    assert_eq!(game.status(), GameStatus::Playing);
    assert!(game.s1.is_none() && game.s2.is_none());
}

#[test]
fn five_pillz_with_fury_beat_none() {
    let catalog = plain_catalog();
    let mut game = plain_game(&catalog);
    assert!(!game.select(0, 0, false, &catalog));
    assert!(game.can_select(0, 5, true));
    assert!(game.select(0, 5, true, &catalog));
    assert_eq!(game.h1.cards[0].attack.value, 10);
    assert_eq!(game.h2.cards[0].attack.value, 60);
    assert_eq!(game.h2.cards[0].damage.value, 6);
    assert_eq!(game.h2.cards[0].damage.base, 4);
    assert_eq!(game.p2.won, RoundWin::WIN);
    assert_eq!(game.p1.life, 6);
    assert_eq!(game.p2.life, 12);
    assert_eq!(game.p1.pillz, 12);
    assert_eq!(game.p2.pillz, 4);
    assert_eq!(game.round, 1);
}
