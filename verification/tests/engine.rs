use std::collections::HashMap;

use urban_recreation::ability::{Ability, AbilityType, Condition};
use urban_recreation::battle::{BattleData, Events};
use urban_recreation::card::{BaseCard, Card, Hand};
use urban_recreation::catalog::Catalog;
use urban_recreation::game::{Player, PlayerType, RoundWin};
use urban_recreation::modifiers::{
    self, as_ability, as_bonus, BasicModifier, Cancel, CancelModifier, CopyModifier, EventTime,
    Exchange, ExchangeModifier, Modifier, Per, Protect, ProtectionModifier, RecoverModifier, Stat,
};
use urban_recreation::types::{Clan, ClanSet, Rarity};

fn card(id: u32, clan: Clan, level: u8, power: u8, damage: u8, ability: u32, bonus: u32) -> BaseCard {
    BaseCard {
        id,
        name: format!("Card {}", id),
        clan,
        level,
        level_max: 5,
        power,
        damage,
        rarity: Rarity::COMMON,
        ability_id: ability,
        ability: String::new(),
        bonus_id: bonus,
        bonus: String::new(),
        year: 2010,
    }
}

fn basic(time: EventTime, stat: Stat, change: i32, min: i32, max: i32) -> BasicModifier {
    BasicModifier {
        event_time: time,
        win: None,
        change,
        per: None,
        stat,
        opp: false,
        min,
        max,
        always: false,
    }
}

fn ability(kind: AbilityType, modifiers: Vec<Modifier>, conditions: Vec<Condition>) -> Ability {
    Ability::new(kind, &modifiers, &conditions).unwrap()
}

fn catalog() -> Catalog {
    let mut abilities = HashMap::new();
    abilities.insert(0, ability(AbilityType::Ability, vec![], vec![]));
    abilities.insert(
        10,
        ability(
            AbilityType::Ability,
            vec![Modifier::Basic(basic(EventTime::PRE2, Stat::Power, 3, 0, 99))],
            vec![],
        ),
    );
    abilities.insert(
        11,
        ability(
            AbilityType::Bonus,
            vec![Modifier::Basic(basic(EventTime::PRE1, Stat::Damage, 2, 0, 99))],
            vec![],
        ),
    );
    abilities.insert(
        12,
        ability(
            AbilityType::GlobalAbility,
            vec![Modifier::Basic(basic(EventTime::END, Stat::Life, 1, 0, 99))],
            vec![],
        ),
    );
    abilities.insert(
        13,
        ability(
            AbilityType::Global,
            vec![Modifier::Basic(basic(EventTime::START, Stat::Power, 1, 0, 99))],
            vec![],
        ),
    );
    Catalog::new(
        vec![
            card(1, Clan::Bangers, 3, 7, 4, 10, 11),
            card(2, Clan::Bangers, 2, 6, 3, 0, 11),
            card(3, Clan::Roots, 4, 8, 5, 12, 0),
            card(4, Clan::Roots, 5, 9, 6, 13, 0),
            card(5, Clan::Junkz, 1, 5, 2, 0, 0),
        ],
        abilities,
    )
}

fn data(catalog: &Catalog) -> BattleData {
    let hand = Hand::from_ids(catalog, 1, 2, 3, 4).unwrap();
    let opp_hand = Hand::from_ids(catalog, 3, 4, 1, 2).unwrap();
    BattleData {
        round: 1,
        first: true,
        player: Player::new(PlayerType::Player),
        hand,
        card: 0,
        player_pillz_used: 5,
        opp: Player::new(PlayerType::Opponent),
        opp_hand,
        opp_card: 1,
        opp_pillz_used: 2,
    }
}

fn acting(data: &BattleData) -> Card {
    data.hand.cards[data.card]
}

fn opposing(data: &BattleData) -> Card {
    data.opp_hand.cards[data.opp_card]
}

#[test]
fn basic_modifier_adds_its_change() {
    let catalog = catalog();
    let mut data = data(&catalog);
    let mut modifier = basic(EventTime::PRE2, Stat::Power, 3, 0, 99);
    modifier.apply(&mut data);
    assert_eq!(acting(&data).power.value, 10);
    assert_eq!(acting(&data).power.base, 7);
    assert_eq!(opposing(&data).power.value, 9);
    let _ = catalog;
}

#[test]
fn basic_modifier_stops_at_its_bounds() {
    let catalog = catalog();
    let mut data = data(&catalog);
    // the upper bound itself is never reached: the result stays below it
    let mut up = basic(EventTime::PRE2, Stat::Power, 5, 0, 9);
    up.apply(&mut data);
    assert_eq!(acting(&data).power.value, 8);
    let mut down = basic(EventTime::PRE2, Stat::Power, -1, 0, 9);
    down.apply(&mut data);
    assert_eq!(acting(&data).power.value, 7);
    // a value at or above the upper bound is left as it is
    let mut at = basic(EventTime::PRE2, Stat::Power, -1, 0, 7);
    at.apply(&mut data);
    assert_eq!(acting(&data).power.value, 7);
    let mut lower = basic(EventTime::PRE2, Stat::Damage, -10, 2, 99);
    lower.apply(&mut data);
    assert_eq!(acting(&data).damage.value, 2);
    // below the lower bound nothing changes
    let mut below = basic(EventTime::PRE2, Stat::Damage, 3, 3, 99);
    below.apply(&mut data);
    assert_eq!(acting(&data).damage.value, 2);
}

#[test]
fn basic_modifier_gives_the_value_below_its_upper_bound() {
    let catalog = catalog();
    let power_after = |from: u8, change: i32, min: i32, max: i32| {
        let mut data = data(&catalog);
        data.hand.cards[0].power.value = from;
        let mut modifier = basic(EventTime::PRE2, Stat::Power, change, min, max);
        modifier.apply(&mut data);
        acting(&data).power.value
    };
    assert_eq!(power_after(5, 10, 0, 10), 9);
    assert_eq!(power_after(9, 10, 0, 10), 9);
    assert_eq!(power_after(10, 10, 0, 10), 10);
    assert_eq!(power_after(12, -3, 0, 10), 12);
    assert_eq!(power_after(5, 2, 0, 10), 7);
    assert_eq!(power_after(7, 2, 0, 10), 9);
    assert_eq!(power_after(8, 2, 0, 10), 9);
    assert_eq!(power_after(5, -4, 3, 10), 3);
    assert_eq!(power_after(9, -4, 3, 10), 5);
    assert_eq!(power_after(3, -4, 3, 10), 3);
    assert_eq!(power_after(2, 4, 3, 10), 2);
}

#[test]
fn basic_modifier_on_the_opposing_side() {
    let catalog = catalog();
    let mut data = data(&catalog);
    let mut modifier = basic(EventTime::PRE2, Stat::Power, -4, 1, 99);
    modifier.opp = true;
    modifier.apply(&mut data);
    assert_eq!(opposing(&data).power.value, 5);
    assert_eq!(acting(&data).power.value, 7);
    // a protected stat does not change
    let mut protect = ProtectionModifier {
        event_time: EventTime::PRE3,
        win: None,
        prot: Protect::Power,
        both: false,
    };
    data.mirror();
    protect.apply(&mut data);
    data.mirror();
    modifier.apply(&mut data);
    assert_eq!(opposing(&data).power.value, 5);
    // unless the modifier always applies
    modifier.always = true;
    modifier.apply(&mut data);
    assert_eq!(opposing(&data).power.value, 1);
}

#[test]
fn basic_modifier_counts_per_unit() {
    let catalog = catalog();
    let cases: Vec<(Per, bool, i32)> = vec![
        (Per::Power, false, 7),
        (Per::Damage, false, 4),
        (Per::Life, false, 12),
        (Per::Pillz, false, 12),
        (Per::Support, false, 2),
        (Per::Brawl, false, 2),
        (Per::Growth, false, 2),
        (Per::Degrowth, false, 3),
        (Per::Equalizer, false, 5),
        (Per::Symmetry, false, 0),
        (Per::Asymmetry, false, 1),
        (Per::OppPower, false, 1),
        (Per::Power, true, 9),
        (Per::Damage, true, 6),
    ];
    for (per, opp, units) in cases {
        let mut data = data(&catalog);
        let mut modifier = basic(EventTime::POST1, Stat::Attack, 2, 0, 9999);
        modifier.per = Some(per);
        modifier.opp = opp;
        modifier.apply(&mut data);
        let changed = if opp { opposing(&data) } else { acting(&data) };
        assert_eq!(changed.attack.value as i32, 2 * units, "{:?} {}", per, opp);
    }
}

#[test]
fn basic_modifier_waits_for_a_win() {
    let catalog = catalog();
    let mut data = data(&catalog);
    let mut modifier = basic(EventTime::POST1, Stat::Damage, 2, 0, 99);
    modifier.win = Some(true);
    modifier.apply(&mut data);
    assert_eq!(acting(&data).damage.value, 4);
    data.hand.cards[0].won = true;
    modifier.apply(&mut data);
    assert_eq!(acting(&data).damage.value, 6);
}

#[test]
fn basic_modifier_of_life_needs_a_living_target() {
    let catalog = catalog();
    let mut data = data(&catalog);
    let mut heal = basic(EventTime::END, Stat::Life, 2, 0, 99);
    heal.apply(&mut data);
    assert_eq!(data.player.life, 14);
    data.player.life = 0;
    heal.apply(&mut data);
    assert_eq!(data.player.life, 0);
    let mut poison = basic(EventTime::END, Stat::Life, -3, 1, 99);
    poison.opp = true;
    poison.apply(&mut data);
    assert_eq!(data.opp.life, 9);
    data.opp.life = 0;
    poison.always = false;
    poison.apply(&mut data);
    assert_eq!(data.opp.life, 0);
    let mut pillz = basic(EventTime::END, Stat::Pillz, 1, 0, 99);
    pillz.apply(&mut data);
    assert_eq!(data.player.pillz, 13);
}

#[test]
fn cancel_counts_and_is_taken_back() {
    let catalog = catalog();
    let mut data = data(&catalog);
    let mut cancel = CancelModifier {
        event_time: EventTime::PRE4,
        win: None,
        cancel: Cancel::Ability,
        applied: None,
    };
    cancel.apply(&mut data);
    assert_eq!(cancel.applied, Some(true));
    assert_eq!(opposing(&data).ability.cancelled, 1);
    assert!(opposing(&data).ability.is_blocked());
    cancel.undo(&mut data);
    assert_eq!(cancel.applied, Some(false));
    assert_eq!(opposing(&data).ability.cancelled, 0);
    assert!(!opposing(&data).ability.is_blocked());
    // taking back what was never counted leaves the count at 0
    cancel.undo(&mut data);
    assert_eq!(opposing(&data).ability.cancelled, 0);
    for what in [
        Cancel::Power,
        Cancel::Damage,
        Cancel::Attack,
        Cancel::Bonus,
        Cancel::Pillz,
        Cancel::Life,
    ] {
        let mut cancel =
            CancelModifier { event_time: EventTime::PRE4, win: None, cancel: what, applied: None };
        cancel.apply(&mut data);
    }
    let card = opposing(&data);
    assert_eq!(card.power.attr.cancelled, 1);
    assert_eq!(card.damage.attr.cancelled, 1);
    assert_eq!(card.attack.attr.cancelled, 1);
    assert_eq!(card.bonus.cancelled, 1);
    assert_eq!(card.pillz.cancelled, 1);
    assert_eq!(card.life.cancelled, 1);
    assert_eq!(card.ability.cancelled, 0);
}

#[test]
fn protection_keeps_a_cancel_from_blocking() {
    let catalog = catalog();
    let mut data = data(&catalog);
    let mut protect = ProtectionModifier {
        event_time: EventTime::PRE3,
        win: None,
        prot: Protect::Ability,
        both: true,
    };
    protect.apply(&mut data);
    assert!(acting(&data).ability.is_protected());
    assert!(opposing(&data).ability.is_protected());
    let mut cancel = CancelModifier {
        event_time: EventTime::PRE4,
        win: None,
        cancel: Cancel::Ability,
        applied: None,
    };
    cancel.apply(&mut data);
    assert_eq!(opposing(&data).ability.cancelled, 1);
    assert!(!opposing(&data).ability.is_blocked());
    let mut own = ProtectionModifier {
        event_time: EventTime::PRE3,
        win: None,
        prot: Protect::Damage,
        both: false,
    };
    own.apply(&mut data);
    assert!(acting(&data).damage.attr.is_protected());
    assert!(!opposing(&data).damage.attr.is_protected());
}

#[test]
fn copy_takes_over_stats_and_abilities() {
    let catalog = catalog();
    let mut data = data(&catalog);
    let mut power = CopyModifier { event_time: EventTime::PRE3, win: None, copy: modifiers::Copy::Power };
    assert!(power.apply(&mut data, &catalog).is_none());
    assert_eq!(acting(&data).power.value, 9);
    let mut damage = CopyModifier { event_time: EventTime::PRE3, win: None, copy: modifiers::Copy::Damage };
    assert!(damage.apply(&mut data, &catalog).is_none());
    assert_eq!(acting(&data).damage.value, 6);
    // the opposing card is card 4, whose ability is of the kind that cannot be taken over
    let mut ability = CopyModifier { event_time: EventTime::PRE3, win: None, copy: modifiers::Copy::Ability };
    assert!(ability.apply(&mut data, &catalog).is_none());
    assert_eq!(acting(&data).bonus_id, 13);
    // against card 3 the lasting ability comes as a lasting bonus
    data.opp_card = 0;
    let spawned = ability.apply(&mut data, &catalog).unwrap();
    assert_eq!(acting(&data).bonus_id, 12);
    assert_eq!(spawned.ability_type, AbilityType::GlobalBonus);
    assert_eq!(spawned.event_time(), EventTime::END);
    // a bonus comes as an ability
    data.opp_card = 3;
    let mut bonus = CopyModifier { event_time: EventTime::PRE3, win: None, copy: modifiers::Copy::Bonus };
    let spawned = bonus.apply(&mut data, &catalog).unwrap();
    assert_eq!(acting(&data).ability_id, 11);
    assert_eq!(spawned.ability_type, AbilityType::Ability);
    assert_eq!(spawned.event_time(), EventTime::PRE1);
}

#[test]
fn kinds_of_abilities_are_mapped_by_a_table() {
    assert_eq!(as_bonus(AbilityType::Ability), Some(AbilityType::Bonus));
    assert_eq!(as_bonus(AbilityType::GlobalAbility), Some(AbilityType::GlobalBonus));
    assert_eq!(as_bonus(AbilityType::Bonus), Some(AbilityType::Bonus));
    assert_eq!(as_bonus(AbilityType::GlobalBonus), Some(AbilityType::GlobalBonus));
    assert_eq!(as_bonus(AbilityType::Global), None);
    assert_eq!(as_ability(AbilityType::Bonus), Some(AbilityType::Ability));
    assert_eq!(as_ability(AbilityType::GlobalBonus), Some(AbilityType::GlobalAbility));
    assert_eq!(as_ability(AbilityType::Ability), Some(AbilityType::Ability));
    assert_eq!(as_ability(AbilityType::GlobalAbility), Some(AbilityType::GlobalAbility));
    assert_eq!(as_ability(AbilityType::Global), None);
}

#[test]
fn infiltrate_copies_the_bonus_of_a_card_of_the_wildcard_clan() {
    let catalog = catalog();
    let mut data = data(&catalog);
    let mut infiltrate =
        CopyModifier { event_time: EventTime::PRE3, win: None, copy: modifiers::Copy::Infiltrate };
    // the wildcard of this hand stands for the clan of its first card
    assert_eq!(data.hand.oculus_clan, Clan::Bangers);
    data.hand.cards[0].bonus_id = 0;
    let spawned = infiltrate.apply(&mut data, &catalog).unwrap();
    assert_eq!(acting(&data).bonus_id, 11);
    assert_eq!(spawned.ability_type, AbilityType::Bonus);
    // no other card of the clan: nothing happens
    data.hand.oculus_clan = Clan::Junkz;
    data.hand.cards[0].bonus_id = 0;
    assert!(infiltrate.apply(&mut data, &catalog).is_none());
    assert_eq!(acting(&data).bonus_id, 0);
    data.hand.oculus_clan = Clan::NoClan;
    assert!(infiltrate.apply(&mut data, &catalog).is_none());
}

#[test]
fn exchange_swaps_base_values() {
    let catalog = catalog();
    let mut data = data(&catalog);
    let mut power = ExchangeModifier { event_time: EventTime::PRE3, win: None, ex: Exchange::Power };
    power.apply(&mut data);
    assert_eq!(acting(&data).power.value, 9);
    assert_eq!(opposing(&data).power.value, 7);
    let mut damage =
        ExchangeModifier { event_time: EventTime::PRE3, win: None, ex: Exchange::Damage };
    damage.apply(&mut data);
    assert_eq!(acting(&data).damage.value, 6);
    assert_eq!(opposing(&data).damage.value, 4);
    let mut data = crate::data(&catalog);
    let mut impose =
        ExchangeModifier { event_time: EventTime::PRE3, win: None, ex: Exchange::ImposePower };
    impose.apply(&mut data);
    assert_eq!(acting(&data).power.value, 7);
    assert_eq!(opposing(&data).power.value, 7);
    let mut impose =
        ExchangeModifier { event_time: EventTime::PRE3, win: None, ex: Exchange::ImposeDamage };
    impose.apply(&mut data);
    assert_eq!(opposing(&data).damage.value, 4);
    // a blocked stat is not exchanged
    let mut data = crate::data(&catalog);
    data.hand.cards[0].power.attr.cancelled = 1;
    power.apply(&mut data);
    assert_eq!(acting(&data).power.value, 7);
    assert_eq!(opposing(&data).power.value, 9);
}

#[test]
fn recover_gives_back_a_share_of_the_pillz_spent() {
    let catalog = catalog();
    let mut data = data(&catalog);
    data.player.pillz = 3;
    let mut recover = Modifier::Recover(RecoverModifier {
        event_time: EventTime::END,
        win: None,
        n: 2,
        out_of: 3,
    });
    // 5 pillz were spent: 5 * 2 / 3 = 3
    assert!(recover.apply(&mut data, &catalog).is_none());
    assert_eq!(data.player.pillz, 6);
    assert_eq!(data.opp.pillz, 12);
    let mut none = Modifier::Recover(RecoverModifier {
        event_time: EventTime::END,
        win: None,
        n: 2,
        out_of: 0,
    });
    none.apply(&mut data, &catalog);
    assert_eq!(data.player.pillz, 6);
    data.hand.cards[0].pillz.cancelled = 1;
    recover.apply(&mut data, &catalog);
    assert_eq!(data.player.pillz, 6);
}

#[test]
fn modifiers_know_their_checkpoint() {
    let times = [
        EventTime::START,
        EventTime::PRE4,
        EventTime::PRE3,
        EventTime::PRE2,
        EventTime::PRE1,
        EventTime::POST1,
        EventTime::POST2,
        EventTime::POST3,
        EventTime::POST4,
        EventTime::END,
    ];
    for (i, time) in times.iter().enumerate() {
        assert_eq!(time.index(), i);
        assert_eq!(Modifier::Basic(basic(*time, Stat::Power, 1, 0, 9)).event_time(), *time);
        assert_eq!(
            Modifier::Cancel(CancelModifier {
                event_time: *time,
                win: None,
                cancel: Cancel::Power,
                applied: None
            })
            .event_time(),
            *time
        );
        assert_eq!(
            Modifier::Recover(RecoverModifier { event_time: *time, win: None, n: 1, out_of: 2 })
                .event_time(),
            *time
        );
    }
}

#[test]
fn conditions_look_at_the_round() {
    let catalog = catalog();
    let mut data = data(&catalog);
    assert!(Condition::Courage.is_met(&data, &catalog));
    assert!(!Condition::Reprisal.is_met(&data, &catalog));
    assert!(Condition::Day.is_met(&data, &catalog));
    assert!(Condition::Night.is_met(&data, &catalog));
    assert!(Condition::Team.is_met(&data, &catalog));
    assert!(Condition::Other.is_met(&data, &catalog));
    assert!(!Condition::Defeat.is_met(&data, &catalog));
    assert!(!Condition::Backlash.is_met(&data, &catalog));
    assert!(!Condition::Revenge.is_met(&data, &catalog));
    assert!(!Condition::Confidence.is_met(&data, &catalog));
    data.player.won = RoundWin::LOSE;
    data.player.won_previous = RoundWin::WIN;
    assert!(Condition::Defeat.is_met(&data, &catalog));
    assert!(Condition::Confidence.is_met(&data, &catalog));
    assert!(!Condition::Reanimate.is_met(&data, &catalog));
    data.player.life = 0;
    assert!(Condition::Reanimate.is_met(&data, &catalog));
    data.player.won = RoundWin::WIN;
    data.player.won_previous = RoundWin::LOSE;
    assert!(Condition::Backlash.is_met(&data, &catalog));
    assert!(Condition::Revenge.is_met(&data, &catalog));
    assert!(!Condition::Symmetry.is_met(&data, &catalog));
    assert!(Condition::Asymmetry.is_met(&data, &catalog));
    data.opp_card = 0;
    assert!(Condition::Symmetry.is_met(&data, &catalog));
    assert!(!Condition::Stop.is_met(&data, &catalog));
    data.hand.cards[0].ability.cancelled = 1;
    assert!(Condition::Stop.is_met(&data, &catalog));
    data.hand.cards[0].attack.value = 20;
    data.opp_hand.cards[0].attack.value = 10;
    assert!(Condition::Killshot.is_met(&data, &catalog));
    data.opp_hand.cards[0].attack.value = 11;
    assert!(!Condition::Killshot.is_met(&data, &catalog));
    data.mirror();
    assert!(!Condition::Courage.is_met(&data, &catalog));
    assert!(Condition::Reprisal.is_met(&data, &catalog));
}

#[test]
fn conditions_on_clans() {
    let catalog = catalog();
    let mut data = data(&catalog);
    let bangers = ClanSet::empty().with(Clan::Bangers).with(Clan::Montana);
    let junkz = ClanSet::empty().with(Clan::Junkz);
    let none = ClanSet::empty();
    assert!(Condition::Infiltrate(bangers).is_met(&data, &catalog));
    assert!(!Condition::Infiltrate(junkz).is_met(&data, &catalog));
    data.hand.oculus_clan = Clan::NoClan;
    assert!(!Condition::Infiltrate(bangers).is_met(&data, &catalog));
    // the opposing hand holds Roots and Bangers
    assert!(!Condition::Versus(junkz).is_met(&data, &catalog));
    assert!(Condition::Versus(bangers).is_met(&data, &catalog));
    assert!(Condition::Versus(ClanSet::empty().with(Clan::Roots)).is_met(&data, &catalog));
    assert!(!Condition::Versus(none).is_met(&data, &catalog));
    assert!(!Condition::Versus(ClanSet::empty().with(Clan::Zenith)).is_met(&data, &catalog));
}

#[test]
fn an_ability_applies_its_modifiers_in_order() {
    let catalog = catalog();
    let mut data = data(&catalog);
    let mut both = ability(
        AbilityType::Ability,
        vec![
            Modifier::Basic(basic(EventTime::PRE2, Stat::Power, 3, 0, 99)),
            Modifier::Cancel(CancelModifier {
                event_time: EventTime::PRE2,
                win: None,
                cancel: Cancel::Bonus,
                applied: None,
            }),
        ],
        vec![Condition::Courage],
    );
    assert_eq!(both.event_time(), EventTime::PRE2);
    assert!(both.apply(&mut data, &catalog).is_none());
    assert_eq!(acting(&data).power.value, 10);
    assert_eq!(opposing(&data).bonus.cancelled, 1);
    // the cancel remembers that it was applied
    match both.modifiers[1] {
        Some(Modifier::Cancel(cancel)) => assert_eq!(cancel.applied, Some(true)),
        _ => panic!("the second modifier is a cancel"),
    }
    // a condition that does not hold keeps the ability from applying
    let mut never = ability(
        AbilityType::Ability,
        vec![Modifier::Basic(basic(EventTime::PRE2, Stat::Power, 3, 0, 99))],
        vec![Condition::Courage, Condition::Reprisal],
    );
    never.apply(&mut data, &catalog);
    assert_eq!(acting(&data).power.value, 10);
    // a blocked ability does not apply, a bonus still does
    data.hand.cards[0].ability.cancelled = 1;
    both.apply(&mut data, &catalog);
    assert_eq!(acting(&data).power.value, 10);
    let mut bonus = ability(
        AbilityType::Bonus,
        vec![Modifier::Basic(basic(EventTime::PRE2, Stat::Power, 1, 0, 99))],
        vec![],
    );
    bonus.apply(&mut data, &catalog);
    assert_eq!(acting(&data).power.value, 11);
}

#[test]
fn an_ability_has_at_most_two_modifiers_and_three_conditions() {
    let m = Modifier::Basic(basic(EventTime::PRE2, Stat::Power, 3, 0, 99));
    assert!(Ability::new(AbilityType::Ability, &vec![m, m, m], &vec![]).is_none());
    assert!(Ability::new(AbilityType::Ability, &vec![m, m], &vec![Condition::Day; 4]).is_none());
    let full = Ability::new(AbilityType::Ability, &vec![m, m], &vec![Condition::Day; 3]).unwrap();
    assert_eq!(full.modifiers.len(), 2);
    assert_eq!(full.conditions.len(), 3);
    assert_eq!(full.modifiers[0], Some(m));
    assert_eq!(full.conditions[2], Some(Condition::Day));
    assert!(!full.delayed && !full.won && !full.remove);
}

#[test]
fn a_delayed_ability_skips_its_first_turn() {
    let catalog = catalog();
    let mut data = data(&catalog);
    let mut delayed = ability(
        AbilityType::Ability,
        vec![Modifier::Basic(basic(EventTime::PRE2, Stat::Power, 3, 0, 99))],
        vec![],
    );
    delayed.delayed = true;
    assert!(!delayed.can_apply(&data, &catalog));
    assert!(!delayed.delayed);
    assert!(delayed.can_apply(&data, &catalog));
    delayed.delayed = true;
    delayed.apply(&mut data, &catalog);
    assert_eq!(acting(&data).power.value, 7);
    delayed.apply(&mut data, &catalog);
    assert_eq!(acting(&data).power.value, 10);
}

#[test]
fn a_lasting_ability_waits_for_the_result_of_the_round() {
    let catalog = catalog();
    let mut data = data(&catalog);
    let mut lasting = ability(
        AbilityType::GlobalAbility,
        vec![Modifier::Basic(basic(EventTime::END, Stat::Life, 1, 0, 99))],
        vec![],
    );
    data.player.won = RoundWin::WIN;
    assert!(lasting.can_apply(&data, &catalog));
    assert!(lasting.won && !lasting.remove);
    // once it has triggered a later loss does not remove it
    data.player.won = RoundWin::LOSE;
    assert!(lasting.can_apply(&data, &catalog));
    assert!(!lasting.remove);
    let mut lost = ability(
        AbilityType::GlobalBonus,
        vec![Modifier::Basic(basic(EventTime::END, Stat::Life, 1, 0, 99))],
        vec![],
    );
    assert!(!lost.can_apply(&data, &catalog));
    assert!(lost.remove && !lost.won);
    // a lasting ability of the third kind waits in the same way
    let mut leader = ability(
        AbilityType::Global,
        vec![Modifier::Basic(basic(EventTime::END, Stat::Life, 1, 0, 99))],
        vec![],
    );
    assert!(!leader.can_apply(&data, &catalog));
    assert!(leader.remove && !leader.won && !leader.delayed);
    let mut leader = ability(
        AbilityType::Global,
        vec![Modifier::Basic(basic(EventTime::END, Stat::Life, 1, 0, 99))],
        vec![],
    );
    data.player.won = RoundWin::WIN;
    assert!(leader.can_apply(&data, &catalog));
    assert!(leader.won && !leader.remove);
    data.player.won = RoundWin::LOSE;
    assert!(leader.can_apply(&data, &catalog));
    assert!(!leader.remove);
    // an ability of a round does not wait for the result
    let mut plain = ability(
        AbilityType::Ability,
        vec![Modifier::Basic(basic(EventTime::END, Stat::Life, 1, 0, 99))],
        vec![],
    );
    assert!(plain.can_apply(&data, &catalog));
    assert!(!plain.remove && !plain.won);
}

#[test]
fn the_queue_sorts_abilities_by_kind_and_checkpoint() {
    let mut queue = Events::default();
    assert_eq!(queue.events.len(), 10);
    assert_eq!(queue.global.len(), 10);
    let m = |time| vec![Modifier::Basic(basic(time, Stat::Power, 1, 0, 99))];
    queue.add(ability(AbilityType::Ability, m(EventTime::PRE2), vec![]));
    queue.add(ability(AbilityType::Bonus, m(EventTime::PRE2), vec![]));
    queue.add(ability(AbilityType::GlobalAbility, m(EventTime::END), vec![]));
    queue.add(ability(AbilityType::GlobalBonus, m(EventTime::START), vec![]));
    queue.add(ability(AbilityType::Global, m(EventTime::START), vec![]));
    queue.add(ability(AbilityType::Ability, vec![], vec![]));
    assert_eq!(queue.events[3].len(), 2);
    assert_eq!(queue.events[3][0].ability_type, AbilityType::Ability);
    assert_eq!(queue.events[3][1].ability_type, AbilityType::Bonus);
    assert_eq!(queue.global[9].len(), 1);
    assert_eq!(queue.global[0].len(), 1);
    assert_eq!(queue.events.iter().map(|b| b.len()).sum::<usize>(), 2);
    queue.add_global(ability(AbilityType::Global, m(EventTime::START), vec![]));
    queue.add_global(ability(AbilityType::Ability, vec![], vec![]));
    assert_eq!(queue.global[0].len(), 2);
    let copy = queue.clone();
    assert_eq!(copy.events[3].len(), 2);
    assert_eq!(copy.global[0][1].ability_type, AbilityType::Global);
    queue.clear();
    assert_eq!(queue.events.iter().map(|b| b.len()).sum::<usize>(), 0);
    assert_eq!(queue.global.iter().map(|b| b.len()).sum::<usize>(), 3);
}

#[test]
fn a_checkpoint_runs_its_bucket_and_queues_what_comes_into_play() {
    let catalog = catalog();
    let mut data = data(&catalog);
    data.opp_card = 3;
    let mut queue = Events::default();
    // copying the opposing bonus (ability 11, at the last checkpoint before the fight) as an ability
    queue.add(ability(
        AbilityType::Ability,
        vec![Modifier::Copy(CopyModifier {
            event_time: EventTime::PRE3,
            win: None,
            copy: modifiers::Copy::Bonus,
        })],
        vec![],
    ));
    queue.execute(EventTime::PRE4, &mut data, &catalog);
    assert_eq!(queue.events[2].len(), 1);
    queue.execute(EventTime::PRE3, &mut data, &catalog);
    assert_eq!(queue.events[2].len(), 0);
    assert_eq!(queue.events[4].len(), 1);
    assert_eq!(queue.events[4][0].ability_type, AbilityType::Ability);
    assert_eq!(acting(&data).damage.value, 4);
    queue.execute(EventTime::PRE1, &mut data, &catalog);
    assert_eq!(acting(&data).damage.value, 6);
    assert_eq!(queue.events[4].len(), 0);
}

#[test]
fn at_most_two_abilities_of_a_round_wait() {
    let catalog = catalog();
    let mut data = data(&catalog);
    // both cards in play copy what the other has, again and again
    data.opp_card = 3;
    let copy = |time, what| {
        ability(
            AbilityType::Ability,
            vec![Modifier::Copy(CopyModifier { event_time: time, win: None, copy: what })],
            vec![],
        )
    };
    let mut queue = Events::default();
    queue.add(copy(EventTime::START, modifiers::Copy::Bonus));
    queue.add(copy(EventTime::PRE4, modifiers::Copy::Ability));
    let waiting = |queue: &Events| queue.events.iter().map(|bucket| bucket.len()).sum::<usize>();
    assert_eq!(waiting(&queue), 2);
    for time in [
        EventTime::START,
        EventTime::PRE4,
        EventTime::PRE3,
        EventTime::PRE2,
        EventTime::PRE1,
        EventTime::POST1,
        EventTime::POST2,
        EventTime::POST3,
        EventTime::POST4,
        EventTime::END,
    ] {
        queue.execute(time, &mut data, &catalog);
        assert!(waiting(&queue) <= 2);
    }
}

#[test]
fn the_checkpoints_after_the_attacks_run_in_order() {
    let catalog = catalog();
    let mut data = data(&catalog);
    let mut queue = Events::default();
    let attack = |time, change, max| {
        ability(
            AbilityType::Ability,
            vec![Modifier::Basic(basic(time, Stat::Attack, change, 0, max))],
            vec![],
        )
    };
    // added out of order: the bound of the later one stops what the earlier one has raised
    queue.add(attack(EventTime::POST3, 100, 50));
    queue.add(attack(EventTime::POST1, 45, 999));
    queue.add(attack(EventTime::END, 1000, 9999));
    queue.execute_start(&mut data, &catalog);
    assert_eq!(acting(&data).attack.value, 0);
    queue.execute_post(&mut data, &catalog);
    assert_eq!(acting(&data).attack.value, 49);
    queue.execute_end(&mut data, &catalog);
    assert_eq!(acting(&data).attack.value, 1049);
}

#[test]
fn a_leader_ability_that_loses_its_first_round_is_gone() {
    let catalog = catalog();
    let mut data = data(&catalog);
    let mut queue = Events::default();
    queue.add_global(catalog.lookup_ability(12).unwrap());
    assert_eq!(queue.global[9].len(), 1);
    // the owning side has just lost the round
    data.player.won = RoundWin::LOSE;
    queue.execute(EventTime::END, &mut data, &catalog);
    assert_eq!(data.player.life, 12);
    assert_eq!(queue.global[9].len(), 0);
    // later checkpoints and rounds do not apply it any more
    data.player.won = RoundWin::WIN;
    for time in [EventTime::START, EventTime::POST4, EventTime::END] {
        queue.execute(time, &mut data, &catalog);
    }
    assert_eq!(data.player.life, 12);
    // one that does not lose its first round stays and acts every round
    let mut data = crate::data(&catalog);
    let mut queue = Events::default();
    queue.add_global(catalog.lookup_ability(12).unwrap());
    data.player.won = RoundWin::WIN;
    queue.execute(EventTime::END, &mut data, &catalog);
    assert_eq!(data.player.life, 13);
    data.player.won = RoundWin::LOSE;
    queue.execute(EventTime::END, &mut data, &catalog);
    assert_eq!(data.player.life, 14);
    assert_eq!(queue.global[9].len(), 1);
    assert!(queue.global[9][0].won);
}

#[test]
fn a_lasting_ability_of_the_match_that_loses_its_first_round_is_gone() {
    let catalog = catalog();
    let mut data = data(&catalog);
    let gain = || {
        ability(
            AbilityType::Global,
            vec![Modifier::Basic(basic(EventTime::END, Stat::Life, 1, 0, 99))],
            vec![],
        )
    };
    let mut queue = Events::default();
    queue.add_global(gain());
    assert_eq!(queue.global[9].len(), 1);
    // it has not triggered yet and its owner has just lost: it does not act and leaves
    data.player.won = RoundWin::LOSE;
    queue.execute(EventTime::END, &mut data, &catalog);
    assert_eq!(data.player.life, 12);
    assert_eq!(queue.global[9].len(), 0);
    data.player.won = RoundWin::WIN;
    queue.execute(EventTime::END, &mut data, &catalog);
    assert_eq!(data.player.life, 12);
    // after a first round that its owner won it stays, whatever comes
    let mut data = crate::data(&catalog);
    let mut queue = Events::default();
    queue.add_global(gain());
    data.player.won = RoundWin::WIN;
    queue.execute(EventTime::END, &mut data, &catalog);
    assert_eq!(data.player.life, 13);
    data.player.won = RoundWin::LOSE;
    queue.execute(EventTime::END, &mut data, &catalog);
    assert_eq!(data.player.life, 14);
    assert_eq!(queue.global[9].len(), 1);
    // queued for a round it is dropped: it belongs to the match from its start
    let mut queue = Events::default();
    queue.add(gain());
    assert_eq!(queue.global[9].len(), 0);
    assert_eq!(queue.events[9].len(), 0);
}

#[test]
fn looking_again_at_cancels_undoes_and_settles() {
    let catalog = catalog();
    let mut data = data(&catalog);
    let cancel = |applied| {
        ability(
            AbilityType::Ability,
            vec![Modifier::Cancel(CancelModifier {
                event_time: EventTime::PRE4,
                win: None,
                cancel: Cancel::Power,
                applied,
            })],
            vec![],
        )
    };
    let mut queue = Events::default();
    // a cancel that never fired is not looked at
    queue.add(cancel(None));
    assert!(!queue.check_cancels(&mut data));
    // an applied cancel of a card whose ability is not blocked stays
    let mut queue = Events::default();
    queue.add(cancel(Some(true)));
    data.opp_hand.cards[1].power.attr.cancelled = 1;
    let before = data;
    assert!(!queue.check_cancels(&mut data));
    assert_eq!(data.opp_hand.cards[1].power.attr.cancelled, before.opp_hand.cards[1].power.attr.cancelled);
    // once the card's own ability is blocked the cancel is taken back
    data.hand.cards[0].ability.cancelled = 1;
    assert!(queue.check_cancels(&mut data));
    assert_eq!(data.opp_hand.cards[1].power.attr.cancelled, 0);
    // a cancel that is not applied is made again once the ability is free
    let mut queue = Events::default();
    queue.add(cancel(Some(false)));
    assert!(!queue.check_cancels(&mut data));
    data.hand.cards[0].ability.cancelled = 0;
    assert!(queue.check_cancels(&mut data));
    assert_eq!(data.opp_hand.cards[1].power.attr.cancelled, 1);
    // past the point where nothing changes, nothing changes
    let mut queue = Events::default();
    queue.add(cancel(Some(true)));
    assert!(!queue.check_cancels(&mut data));
    let settled = data.opp_hand.cards[1].power.attr.cancelled;
    assert!(!queue.check_cancels(&mut data));
    assert!(!queue.check_cancels(&mut data));
    assert_eq!(data.opp_hand.cards[1].power.attr.cancelled, settled);
}

#[test]
fn mirroring_twice_gives_the_round_back() {
    let catalog = catalog();
    let mut data = data(&catalog);
    data.mirror();
    assert_eq!(data.card, 1);
    assert_eq!(data.opp_card, 0);
    assert!(!data.first);
    assert_eq!(data.player.player_type, PlayerType::Opponent);
    assert_eq!(data.player_pillz_used, 2);
    assert_eq!(data.hand.cards[0].id, 3);
    data.mirror();
    assert_eq!(data.card, 0);
    assert!(data.first);
    assert_eq!(data.player_pillz_used, 5);
    assert_eq!(data.hand.cards[0].id, 1);
}
