use urban_recreation::ability::Condition;
use urban_recreation::card::{BaseCard, CardData};
use urban_recreation::game::Selection;
use urban_recreation::types::{clan_tag, Clan, ClanSet, Rarity};

#[test]
fn a_selection_is_read_from_a_line() {
    assert_eq!(Selection::parse("1 3 true".to_string()), Some(Selection::new(1, 3, true)));
    assert_eq!(Selection::parse("0 12 false".to_string()), Some(Selection::new(0, 12, false)));
    assert_eq!(Selection::parse("2".to_string()), Some(Selection::new(2, 0, false)));
    assert_eq!(Selection::parse("2 5".to_string()), Some(Selection::new(2, 5, false)));
    assert_eq!(Selection::parse("+3 +7 true".to_string()), Some(Selection::new(3, 7, true)));
    assert_eq!(Selection::parse("007 010".to_string()), Some(Selection::new(7, 10, false)));
    assert_eq!(Selection::parse("1 255".to_string()), Some(Selection::new(1, 255, false)));
    assert_eq!(Selection::parse("123456 0".to_string()), Some(Selection::new(123456, 0, false)));
    // what follows the fury flag is not read
    assert_eq!(Selection::parse("1 2 true and more".to_string()), Some(Selection::new(1, 2, true)));
}

#[test]
fn a_line_that_is_no_selection() {
    for line in [
        "", " ", "a", "-1", "1 x", "1 -2", "1 256", "1 2 yes", "1 2 True", "1  2", " 1 2", "1 2 ",
        "1.0", "+", "1 +", "99999999999999999999999999", "1\t2",
    ] {
        assert_eq!(Selection::parse(line.to_string()), None, "{:?}", line);
    }
}

#[test]
fn a_selection_costs_its_pillz_and_three_for_fury() {
    assert_eq!(Selection::new(0, 0, false).cost(), 0);
    assert_eq!(Selection::new(0, 0, true).cost(), 3);
    assert_eq!(Selection::new(0, 9, true).cost(), 12);
    assert_eq!(Selection::new(0, 255, true).cost(), 258);
    assert_eq!(Selection::default(), Selection::new(0, 0, false));
}

#[test]
fn conditions_by_name() {
    assert_eq!(Condition::parse("Courage"), Some(Condition::Courage));
    assert_eq!(Condition::parse("Defeat"), Some(Condition::Defeat));
    assert_eq!(Condition::parse("Brawl"), Some(Condition::Brawl));
    assert_eq!(Condition::parse("Growth"), Some(Condition::Growth));
    assert_eq!(Condition::parse("Confidence"), Some(Condition::Confidence));
    assert_eq!(Condition::parse("Degrowth"), Some(Condition::Degrowth));
    assert_eq!(Condition::parse("Victory Or Defeat"), Some(Condition::VictoryOrDefeat));
    assert_eq!(Condition::parse("Equalizer"), Some(Condition::Equalizer));
    assert_eq!(Condition::parse("Support"), Some(Condition::Support));
    assert_eq!(Condition::parse("Team"), Some(Condition::Team));
    assert_eq!(Condition::parse("Symmetry"), Some(Condition::Symmetry));
    assert_eq!(Condition::parse("Revenge"), Some(Condition::Revenge));
    assert_eq!(Condition::parse("Reprisal"), Some(Condition::Reprisal));
    assert_eq!(Condition::parse("Day"), Some(Condition::Day));
    assert_eq!(Condition::parse("Night"), Some(Condition::Night));
    assert_eq!(Condition::parse("Killshot"), Some(Condition::Killshot));
    assert_eq!(Condition::parse("Backlash"), Some(Condition::Backlash));
    assert_eq!(Condition::parse("Asymmetry"), Some(Condition::Asymmetry));
    assert_eq!(Condition::parse("Reanimate"), Some(Condition::Reanimate));
    assert_eq!(Condition::parse("Stop"), Some(Condition::Stop));
    assert_eq!(Condition::parse("Something new"), Some(Condition::Other));
    assert_eq!(Condition::parse("courage"), Some(Condition::Other));
    assert_eq!(Condition::parse(""), Some(Condition::Other));
    assert_eq!(Condition::named("Stop"), Some(Condition::Stop));
    // the two that need clans have none by their name alone
    assert_eq!(Condition::parse("Versus"), None);
    assert_eq!(Condition::parse("Infiltrate"), None);
}

#[test]
fn conditions_with_clans() {
    let two = ClanSet::empty().with(Clan::Pussycats).with(Clan::Montana);
    assert_eq!(Condition::parse("Versus [Clan:4][Clan:3]"), Some(Condition::Versus(two)));
    assert_eq!(Condition::parse("Versus [clan:3] [Clan:4]"), Some(Condition::Versus(two)));
    assert_eq!(Condition::parse("Infiltrate [Clan:4][Clan:3]"), Some(Condition::Infiltrate(two)));
    // whatever does not start with the word for the one is the other
    assert_eq!(Condition::parse("[Clan:4][Clan:3]"), Some(Condition::Infiltrate(two)));
    match Condition::parse("Versus [Clan:27][Clan:42][Clan:49][Clan:10]") {
        Some(Condition::Versus(clans)) => {
            for clan in [Clan::LaJunta, Clan::Piranas, Clan::Riots, Clan::UluWatu] {
                assert!(clans.contains(clan));
            }
            assert!(!clans.contains(Clan::Montana));
            assert!(!clans.contains(Clan::NoClan));
        }
        other => panic!("{:?}", other),
    }
    assert_eq!(Condition::parse("Versus []"), Some(Condition::Versus(ClanSet::empty())));
    // numbers that are not those of clans
    assert_eq!(Condition::parse("Versus [Clan:1]"), None);
    assert_eq!(Condition::parse("Versus [Clan:4][Clan:0]"), None);
    assert_eq!(Condition::parse("Versus [Clan:999]"), None);
    assert_eq!(Condition::clans_of(&vec!["4".to_string(), "3".to_string()]), Some(two));
    assert_eq!(Condition::clans_of(&vec!["4".to_string(), "x".to_string()]), None);
    assert_eq!(Condition::clans_of(&vec![]), Some(ClanSet::empty()));
}

#[test]
fn clan_references_become_tags() {
    assert_eq!(clan_tag("[Clan:4]", "4"), "[Pssy] ");
    assert_eq!(clan_tag("[clan:36]", "36"), "[Ldr] ");
    assert_eq!(clan_tag("[Clan:1]", "1"), "[Clan:1]");
    assert_eq!(clan_tag("[Clan:300]", "300"), "[Clan:300]");
    assert_eq!(clan_tag("[Clan:x]", "x"), "[Clan:x]");
}

fn card_data(ability: &str, rarity: &str, release_date: u32) -> CardData {
    CardData {
        id: 7,
        name: "Gibson".to_string(),
        clan: Clan::Junkz,
        level: 2,
        level_max: 4,
        power: 6,
        damage: 5,
        rarity: rarity.to_string(),
        ability_id: 70,
        ability: ability.to_string(),
        bonus_id: 71,
        bonus: "+8 Attack".to_string(),
        release_date,
    }
}

#[test]
fn a_catalog_card_is_made_from_card_data() {
    let data = card_data("[clan:27][clan:42][clan:49][clan:10] +1 Pillz And Life", "cr", 1431648000);
    let card = BaseCard::from_data(&data);
    assert_eq!(card.id, 7);
    assert_eq!(card.name, "Gibson");
    assert_eq!(card.clan, Clan::Junkz);
    assert_eq!((card.level, card.level_max, card.power, card.damage), (2, 4, 6, 5));
    assert_eq!(card.rarity, Rarity::COLLECTOR);
    assert_eq!((card.ability_id, card.bonus_id), (70, 71));
    assert_eq!(card.ability, "[LaJn] [Prna] [Riot] [UluW]  +1 Pillz And Life");
    assert_eq!(card.bonus, "+8 Attack");
    assert_eq!(card.year, 2015);
    let plain = BaseCard::from_data(&card_data("Power +2", "x", 0));
    assert_eq!(plain.ability, "Power +2");
    assert_eq!(plain.rarity, Rarity::COMMON);
    assert_eq!(plain.year, 1970);
    let kept = BaseCard::from_data(&card_data("Versus [Clan:4] [Clan:1]: -2 Opp Power", "m", 0));
    assert_eq!(kept.ability, "Versus [Pssy]  [Clan:1]: -2 Opp Power");
}

#[test]
fn the_year_of_a_release_date() {
    assert_eq!(card_data("", "c", 0).year(), 1970);
    assert_eq!(card_data("", "c", 31535999).year(), 1970);
    assert_eq!(card_data("", "c", 31536000).year(), 1971);
    assert_eq!(card_data("", "c", 1136073600).year(), 2006);
    assert_eq!(card_data("", "c", 1431648000).year(), 2015);
    assert_eq!(card_data("", "c", u32::MAX).year(), 2106);
}

#[test]
fn rarities_by_code() {
    assert_eq!(Rarity::from(&"c".to_string()), Rarity::COMMON);
    assert_eq!(Rarity::from(&"u".to_string()), Rarity::UNCOMMON);
    assert_eq!(Rarity::from(&"r".to_string()), Rarity::RARE);
    assert_eq!(Rarity::from(&"cr".to_string()), Rarity::COLLECTOR);
    assert_eq!(Rarity::from(&"m".to_string()), Rarity::MYTHIC);
    assert_eq!(Rarity::from(&"l".to_string()), Rarity::LEGENDARY);
    assert_eq!(Rarity::from(&"".to_string()), Rarity::COMMON);
    assert_eq!(Rarity::from(&"R".to_string()), Rarity::COMMON);
}

#[test]
fn clans_and_their_identifiers() {
    let mut clans = 0;
    for id in 0..=255u8 {
        match Clan::from_id(id) {
            Some(clan) => {
                clans += 1;
                assert_eq!(clan.id(), id);
                assert_ne!(clan, Clan::NoClan);
                let tag = clan.short_name();
                assert!(tag.starts_with('[') && tag.ends_with(']') && tag.len() >= 5);
            }
            None => {}
        }
    }
    assert_eq!(clans, 35);
    assert_eq!(Clan::from_id(0), None);
    assert_eq!(Clan::NoClan.id(), 0);
    assert_eq!(Clan::from_id(56), Some(Clan::Oculus));
    assert_eq!(Clan::from_id(36), Some(Clan::Leader));
    assert_eq!(Clan::from_id(3), Some(Clan::Montana));
    assert_eq!(Clan::from_id(59), Some(Clan::Zenith));
    assert_eq!(Clan::from_id(60), None);
    assert_eq!(Clan::AllStars.short_name(), "[AllS]");
    assert_eq!(Clan::FangPiClang.short_name(), "[Fng]");
    assert_eq!(Clan::GHEIST.short_name(), "[Ghst]");
}

#[test]
fn a_set_of_clans() {
    let none = ClanSet::empty();
    let some = none.with(Clan::Zenith).with(Clan::Montana).with(Clan::Zenith);
    assert_eq!(none.bits, 0);
    assert!(some.contains(Clan::Zenith));
    assert!(some.contains(Clan::Montana));
    assert!(!some.contains(Clan::Oblivion));
    assert!(!none.contains(Clan::Zenith));
    assert_eq!(some, ClanSet::empty().with(Clan::Montana).with(Clan::Zenith));
}

#[test]
fn main_test() {
    let s = "[clan:27][clan:42][clan:49][clan:10] +1 Pillz And Life".to_string();
    let clans = Condition::clans_of(&vec![
        "27".to_string(),
        "42".to_string(),
        "49".to_string(),
        "10".to_string(),
    ]);
    println!("{:?}", clans);
    let rep = BaseCard::from_data(&card_data(&s, "c", 0)).ability;
    println!("{}", rep);
    let mut ability = urban_recreation::ability::Ability::new(
        urban_recreation::ability::AbilityType::Ability,
        &vec![],
        &vec![Condition::Day],
    )
    .unwrap();
    let copy = ability;
    ability.delayed = true;
    println!("{:?}", ability);
    println!("{:?}", copy);
    assert!(!copy.delayed);
}
