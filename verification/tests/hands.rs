use std::collections::HashMap;

use urban_recreation::ability::{Ability, AbilityType};
use urban_recreation::card::{BaseCard, Card, Hand};
use urban_recreation::catalog::Catalog;
use urban_recreation::game::Game;
use urban_recreation::modifiers::{BasicModifier, EventTime, Modifier, Stat};
use urban_recreation::types::{Clan, Rarity};

fn card(id: u32, name: &str, clan: Clan) -> BaseCard {
    BaseCard {
        id,
        name: name.to_string(),
        clan,
        level: 3,
        level_max: 4,
        power: 6,
        damage: 3,
        rarity: Rarity::RARE,
        ability_id: 50,
        ability: "Power +1".to_string(),
        bonus_id: 60,
        bonus: "Damage +1".to_string(),
        year: 2012,
    }
}

fn plus_one(kind: AbilityType, stat: Stat) -> Ability {
    let modifier = Modifier::Basic(BasicModifier {
        event_time: EventTime::PRE2,
        win: None,
        change: 1,
        per: None,
        stat,
        opp: false,
        min: 0,
        max: 99,
        always: false,
    });
    Ability::new(kind, &vec![modifier], &vec![]).unwrap()
}

fn abilities() -> HashMap<u32, Ability> {
    let mut abilities = HashMap::new();
    abilities.insert(0, Ability::new(AbilityType::Ability, &vec![], &vec![]).unwrap());
    abilities.insert(50, plus_one(AbilityType::Ability, Stat::Power));
    abilities.insert(60, plus_one(AbilityType::Bonus, Stat::Damage));
    abilities.insert(70, plus_one(AbilityType::Global, Stat::Power));
    abilities
}

fn cards() -> Vec<BaseCard> {
    let mut leader = card(30, "Ambre", Clan::Leader);
    leader.ability_id = 70;
    vec![
        card(1, "Bodenpower", Clan::Bangers),
        card(2, "Blaaster", Clan::Bangers),
        card(3, "Fifty", Clan::Bangers),
        card(4, "Juicy Lord", Clan::Bangers),
        card(5, "Jeffrey", Clan::Roots),
        card(6, "Ricardo", Clan::Roots),
        card(7, "Gibson", Clan::Junkz),
        card(20, "Janus", Clan::Oculus),
        card(21, "Argos", Clan::Oculus),
        leader,
        card(31, "Hugo", Clan::Leader),
        card(40, "Anibal", Clan::GHEIST),
        card(41, "Bristone", Clan::GHEIST),
        card(42, "Dolly", Clan::GHEIST),
        card(43, "Ielena", Clan::GHEIST),
        card(44, "Rolph", Clan::GHEIST),
        card(50, "Azel", Clan::Nightmare),
        card(51, "Cortez", Clan::Nightmare),
        card(52, "Glorg", Clan::Nightmare),
        card(53, "Ielena", Clan::Nightmare),
    ]
}

fn catalog() -> Catalog {
    Catalog::new(cards(), abilities())
}

fn fresh(catalog: &Catalog, ids: [u32; 4]) -> [Card; 4] {
    [
        BaseCard::get_id(catalog, ids[0]).unwrap().to_card(0),
        BaseCard::get_id(catalog, ids[1]).unwrap().to_card(1),
        BaseCard::get_id(catalog, ids[2]).unwrap().to_card(2),
        BaseCard::get_id(catalog, ids[3]).unwrap().to_card(3),
    ]
}

fn counts(catalog: &Catalog, ids: [u32; 4]) -> ([u8; 4], Clan, [u32; 4]) {
    let mut cards = fresh(catalog, ids);
    let (counts, clan) = Hand::clan_counts(&mut cards, catalog);
    (counts, clan, [cards[0].bonus_id, cards[1].bonus_id, cards[2].bonus_id, cards[3].bonus_id])
}

#[test]
fn cards_of_one_clan_count_each_other() {
    let catalog = catalog();
    assert_eq!(counts(&catalog, [1, 2, 3, 4]), ([4, 4, 4, 4], Clan::Bangers, [60, 60, 60, 60]));
    assert_eq!(counts(&catalog, [1, 5, 2, 6]), ([2, 2, 2, 2], Clan::Bangers, [60, 60, 60, 60]));
    assert_eq!(counts(&catalog, [5, 1, 2, 3]), ([1, 3, 3, 3], Clan::Roots, [0, 60, 60, 60]));
    assert_eq!(counts(&catalog, [1, 5, 7, 30]), ([1, 1, 1, 1], Clan::Bangers, [0, 0, 0, 0]));
}

#[test]
fn a_card_that_occurs_twice_counts_once() {
    let catalog = catalog();
    // the two copies and the other card of their clan are two different cards
    assert_eq!(counts(&catalog, [1, 1, 2, 5]), ([2, 2, 2, 1], Clan::Bangers, [60, 60, 60, 0]));
    assert_eq!(counts(&catalog, [2, 1, 5, 1]), ([2, 2, 1, 2], Clan::Bangers, [60, 60, 0, 60]));
    // three copies are one card
    assert_eq!(counts(&catalog, [1, 1, 1, 5]), ([1, 1, 1, 1], Clan::Bangers, [0, 0, 0, 0]));
    assert_eq!(counts(&catalog, [1, 1, 1, 1]), ([1, 1, 1, 1], Clan::Bangers, [0, 0, 0, 0]));
    assert_eq!(counts(&catalog, [1, 1, 5, 5]), ([1, 1, 1, 1], Clan::Bangers, [0, 0, 0, 0]));
    assert_eq!(counts(&catalog, [1, 2, 1, 2]), ([2, 2, 2, 2], Clan::Bangers, [60, 60, 60, 60]));
}

#[test]
fn a_single_wildcard_joins_the_only_other_clan() {
    let catalog = catalog();
    assert_eq!(counts(&catalog, [20, 1, 2, 3]), ([4, 4, 4, 4], Clan::Bangers, [60, 60, 60, 60]));
    assert_eq!(counts(&catalog, [1, 2, 20, 3]), ([4, 4, 4, 4], Clan::Bangers, [60, 60, 60, 60]));
    assert_eq!(counts(&catalog, [5, 6, 20, 5]), ([3, 3, 3, 3], Clan::Roots, [60, 60, 60, 60]));
}

#[test]
fn a_single_wildcard_joins_the_clan_that_is_alone_beside_a_pair() {
    let catalog = catalog();
    assert_eq!(counts(&catalog, [20, 1, 2, 5]), ([2, 2, 2, 2], Clan::Roots, [60, 60, 60, 60]));
    assert_eq!(counts(&catalog, [5, 1, 20, 2]), ([2, 2, 2, 2], Clan::Roots, [60, 60, 60, 60]));
    assert_eq!(counts(&catalog, [5, 6, 1, 20]), ([2, 2, 2, 2], Clan::Bangers, [60, 60, 60, 60]));
    // three clans without a pair: the wildcard stays what it is
    assert_eq!(counts(&catalog, [20, 1, 5, 1]), ([1, 1, 1, 1], Clan::Oculus, [0, 0, 0, 0]));
    // four clans
    assert_eq!(counts(&catalog, [20, 1, 5, 7]), ([1, 1, 1, 1], Clan::Oculus, [0, 0, 0, 0]));
}

#[test]
fn two_wildcards_stay_what_they_are() {
    let catalog = catalog();
    assert_eq!(counts(&catalog, [20, 21, 1, 2]), ([2, 2, 2, 2], Clan::Oculus, [60, 60, 60, 60]));
    assert_eq!(counts(&catalog, [20, 1, 2, 21]), ([2, 2, 2, 2], Clan::Oculus, [60, 60, 60, 60]));
}

#[test]
fn counting_again_changes_nothing() {
    let catalog = catalog();
    for ids in [[1, 2, 3, 4], [5, 1, 2, 3], [1, 1, 2, 5], [20, 1, 2, 5], [20, 1, 5, 7], [20, 21, 1, 30]]
    {
        let mut cards = fresh(&catalog, ids);
        let first = Hand::clan_counts(&mut cards, &catalog);
        let after_first = cards.map(|c| (c.id, c.bonus_id, c.ability_id, c.index));
        let second = Hand::clan_counts(&mut cards, &catalog);
        let after_second = cards.map(|c| (c.id, c.bonus_id, c.ability_id, c.index));
        assert_eq!(first, second);
        assert_eq!(after_first, after_second);
    }
}

#[test]
fn a_hand_is_made_of_fresh_cards() {
    let catalog = catalog();
    let hand = Hand::from_ids(&catalog, 5, 1, 2, 30).unwrap();
    assert_eq!(hand.clan_count, [1, 2, 2, 1]);
    assert_eq!(hand.oculus_clan, Clan::Roots);
    assert_eq!(hand.card_clan_count(2), 2);
    for (i, card) in hand.cards.iter().enumerate() {
        assert_eq!(card.index, i);
        assert!(!card.played && !card.won);
        assert_eq!(card.level, 3);
        assert_eq!((card.power.base, card.power.value), (6, 6));
        assert_eq!((card.damage.base, card.damage.value), (3, 3));
        assert_eq!(card.attack.value, 0);
        assert!(!card.ability.is_blocked() && !card.ability.is_protected());
        assert_eq!(card.level_max(&catalog), 4);
        assert_eq!(card.year(&catalog), 2012);
    }
    assert_eq!(hand.cards[0].id, 5);
    assert_eq!(hand.cards[0].bonus_id, 0);
    assert_eq!(hand.cards[1].bonus_id, 60);
    assert_eq!(hand.cards[3].ability_id, 70);
    assert_eq!(hand.cards[1].name(&catalog), "Bodenpower");
    assert_eq!(hand.cards[1].clan(&catalog), Clan::Bangers);
    assert_eq!(hand.cards[1].base(&catalog).id, 1);
    assert_eq!(hand.cards[1].get_ability(&catalog).ability_type, AbilityType::Ability);
    assert_eq!(hand.cards[1].get_bonus(&catalog).ability_type, AbilityType::Bonus);
    assert_eq!(hand.cards[0].get_bonus(&catalog).modifiers.len(), 0);
    let same = Card::from(BaseCard::get_id(&catalog, 1).unwrap(), 1);
    assert_eq!(same.id, hand.cards[1].id);
    assert_eq!(same.bonus_id, 60);
}

#[test]
fn a_hand_needs_cards_that_the_catalog_has() {
    let catalog = catalog();
    assert!(Hand::from_ids(&catalog, 1, 2, 3, 99).is_none());
    assert!(Hand::from_ids(&catalog, 99, 2, 3, 4).is_none());
    assert!(Hand::from_names(&catalog, "Fifty", "Jeffrey", "Nobody", "Janus").is_none());
    assert!(BaseCard::get_id(&catalog, 99).is_none());
    assert!(BaseCard::get_name(&catalog, "Nobody").is_none());
    // a card whose ability the catalog does not define
    let mut cards = cards();
    cards[0].ability_id = 1234;
    let broken = Catalog::new(cards, abilities());
    assert!(Hand::from_ids(&broken, 1, 2, 3, 4).is_none());
    assert!(Hand::from_ids(&broken, 2, 3, 4, 5).is_some());
    assert!(!broken.is_supported(broken.lookup_card(1).unwrap()));
    // a catalog without the ability 0
    let mut some = abilities();
    some.remove(&0);
    let without = Catalog::new(crate::cards(), some);
    assert!(Hand::from_ids(&without, 1, 2, 3, 4).is_none());
}

#[test]
fn names_are_found_whatever_their_case() {
    let catalog = catalog();
    let hand = Hand::from_names(&catalog, "fifty", "JEFFREY", "Juicy Lord", "jAnUs").unwrap();
    assert_eq!(hand.cards.map(|c| c.id), [3, 5, 4, 20]);
    assert_eq!(BaseCard::get_name(&catalog, "juicy lord").unwrap().id, 4);
    // of two cards with one name the later one answers
    assert_eq!(BaseCard::get_name(&catalog, "ielena").unwrap().id, 53);
    assert_eq!(catalog.lookup_card_by_name("IELENA").unwrap().clan, Clan::Nightmare);
}

#[test]
fn of_two_cards_with_one_identifier_the_later_one_answers() {
    let mut cards = cards();
    let mut again = card(1, "Bodenpower Ld", Clan::Roots);
    again.power = 9;
    cards.push(again);
    let catalog = Catalog::new(cards, abilities());
    assert_eq!(catalog.len(), 21);
    assert_eq!(catalog.card_at(0).name, "Bodenpower");
    assert_eq!(catalog.lookup_card(1).unwrap().name, "Bodenpower Ld");
    let hand = Hand::from_ids(&catalog, 1, 5, 6, 2).unwrap();
    assert_eq!(hand.cards[0].power.value, 9);
    assert_eq!(hand.clan_count, [3, 3, 3, 1]);
}

#[test]
fn the_leader_is_the_only_card_of_its_clan() {
    let catalog = catalog();
    let hand = Hand::from_ids(&catalog, 1, 2, 30, 3).unwrap();
    assert_eq!(hand.get_leader(&catalog).unwrap().index, 2);
    let hand = Hand::from_ids(&catalog, 30, 2, 1, 3).unwrap();
    assert_eq!(hand.get_leader(&catalog).unwrap().id, 30);
    let hand = Hand::from_ids(&catalog, 1, 2, 3, 31).unwrap();
    assert_eq!(hand.get_leader(&catalog).unwrap().id, 31);
    let hand = Hand::from_ids(&catalog, 1, 30, 3, 31).unwrap();
    assert!(hand.get_leader(&catalog).is_none());
    let hand = Hand::from_ids(&catalog, 1, 2, 3, 4).unwrap();
    assert!(hand.get_leader(&catalog).is_none());
}

#[test]
fn a_hand_from_positions_of_the_catalog() {
    let catalog = catalog();
    let hand = Hand::from_positions(&catalog, &vec![4, 0, 1, 9]).unwrap();
    assert_eq!(hand.cards.map(|c| c.id), [5, 1, 2, 30]);
    assert_eq!(hand.clan_count, [1, 2, 2, 1]);
    assert!(Hand::from_positions(&catalog, &vec![4, 0, 1]).is_none());
    assert!(Hand::from_positions(&catalog, &vec![4, 0, 1, 2, 3]).is_none());
    assert!(Hand::from_positions(&catalog, &vec![4, 0, 1, 20]).is_none());
}

#[test]
fn a_random_hand_holds_four_different_cards_of_the_clan() {
    let catalog = catalog();
    let mut seen = std::collections::HashSet::new();
    for _ in 0..200 {
        let hand = Hand::random_hand_clan(&catalog, Clan::GHEIST).unwrap();
        let mut ids = hand.cards.map(|c| c.id).to_vec();
        for (i, card) in hand.cards.iter().enumerate() {
            assert_eq!(card.index, i);
            assert_eq!(card.clan(&catalog), Clan::GHEIST);
        }
        assert_eq!(hand.clan_count, [4, 4, 4, 4]);
        seen.insert(ids.clone());
        ids.sort();
        ids.dedup();
        assert_eq!(ids.len(), 4);
    }
    // five cards to pick from: the picks differ
    assert!(seen.len() > 1);
    // exactly four cards of the clan: all of them are picked
    let hand = Hand::random_hand_clan(&catalog, Clan::Bangers).unwrap();
    let mut ids = hand.cards.map(|c| c.id).to_vec();
    ids.sort();
    assert_eq!(ids, vec![1, 2, 3, 4]);
    // fewer than four
    assert!(Hand::random_hand_clan(&catalog, Clan::Roots).is_none());
    assert!(Hand::random_hand_clan(&catalog, Clan::Zenith).is_none());
}

#[test]
fn a_random_match_is_between_two_clans() {
    let catalog = catalog();
    let game = Game::random(&catalog).unwrap();
    assert_eq!(game.round, 0);
    assert!(game.s1.is_none() && game.s2.is_none());
    for i in 0..4 {
        assert_eq!(game.h1.cards[i].clan(&catalog), Clan::GHEIST);
        assert_eq!(game.h2.cards[i].clan(&catalog), Clan::Nightmare);
    }
    let few = Catalog::new(cards().into_iter().filter(|c| c.id != 50).collect(), abilities());
    assert!(Game::random(&few).is_none());
}
