use vstd::prelude::*;
use crate::ability::{Ability, AbilityType};
use crate::battle::{lemma_steady_chain, lemma_with_card_steady, spec_steady, BattleData};
use crate::card::{AttackStat, Card, CardStat};
use crate::catalog::Catalog;
use crate::game::Player;
use crate::types::Clan;

verus! {

/// The ten checkpoints of a round at which queued abilities fire, in order.
#[derive(Debug, Clone, Copy, PartialEq, Eq, Structural)]
pub enum EventTime {
    START,
    PRE4,
    PRE3,
    PRE2,
    PRE1,
    POST1,
    POST2,
    POST3,
    POST4,
    END,
}

impl EventTime {
    /// The position of the checkpoint in the round, from 0 to 9.
    pub open spec fn spec_index(self) -> int {
        match self {
            EventTime::START => 0,
            EventTime::PRE4 => 1,
            EventTime::PRE3 => 2,
            EventTime::PRE2 => 3,
            EventTime::PRE1 => 4,
            EventTime::POST1 => 5,
            EventTime::POST2 => 6,
            EventTime::POST3 => 7,
            EventTime::POST4 => 8,
            EventTime::END => 9,
        }
    }

    /// The position of the checkpoint in the round, from 0 to 9.
    pub fn index(&self) -> (i: usize)
        ensures
            i == self.spec_index(),
            i < 10,
    {
        match self {
            EventTime::START => 0,
            EventTime::PRE4 => 1,
            EventTime::PRE3 => 2,
            EventTime::PRE2 => 3,
            EventTime::PRE1 => 4,
            EventTime::POST1 => 5,
            EventTime::POST2 => 6,
            EventTime::POST3 => 7,
            EventTime::POST4 => 8,
            EventTime::END => 9,
        }
    }
}

/// What a basic modifier changes.
#[derive(Debug, Clone, Copy, PartialEq, Eq, Structural)]
pub enum Stat {
    Power,
    Damage,
    Attack,
    Life,
    Pillz,
}

/// What a basic modifier's change is counted per.
#[derive(Debug, Clone, Copy, PartialEq, Eq, Structural)]
pub enum Per {
    Power,
    Damage,
    Life,
    Pillz,
    Support,
    Brawl,
    Growth,
    Degrowth,
    Equalizer,
    Symmetry,
    Asymmetry,
    OppPower,
    OppDamage,
    OppLife,
    OppPillz,
}

/// What a cancel modifier cancels on the opposing card.
#[derive(Debug, Clone, Copy, PartialEq, Eq, Structural)]
pub enum Cancel {
    Power,
    Damage,
    Attack,
    Ability,
    Bonus,
    Pillz,
    Life,
}

/// What a copy modifier takes over from the opposing card, or, for
/// `Infiltrate`, from a card of the own hand.
#[derive(Debug, Clone, Copy, PartialEq, Eq, Structural)]
pub enum Copy {
    Power,
    Damage,
    Ability,
    Bonus,
    Infiltrate,
}

/// What an exchange modifier swaps or imposes.
#[derive(Debug, Clone, Copy, PartialEq, Eq, Structural)]
pub enum Exchange {
    Power,
    Damage,
    ImposePower,
    ImposeDamage,
}

/// What a protection modifier protects.
#[derive(Debug, Clone, Copy, PartialEq, Eq, Structural)]
pub enum Protect {
    Power,
    Damage,
    Attack,
    Ability,
    Bonus,
}

/// What a recover modifier gives back.
#[derive(Debug, Clone, Copy, PartialEq, Eq, Structural)]
pub enum Recover {
    Pillz,
    Life,
}

/// Adds `change`, once per unit of `per`, to a stat of the acting side or,
/// with `opp`, of the opposing side, and keeps the result from `min` up to,
/// not including, `max`.
#[derive(Clone, Copy, Debug, PartialEq)]
pub struct BasicModifier {
    pub event_time: EventTime,
    pub win: Option<bool>,
    pub change: i32,
    pub per: Option<Per>,
    pub stat: Stat,
    pub opp: bool,
    pub min: i32,
    pub max: i32,
    pub always: bool,
}

/// Cancels something on the opposing card and remembers whether it did.
#[derive(Clone, Copy, Debug, PartialEq)]
pub struct CancelModifier {
    pub event_time: EventTime,
    pub win: Option<bool>,
    pub cancel: Cancel,
    pub applied: Option<bool>,
}

/// Copies a stat, or takes over an ability or a bonus.
#[derive(Clone, Copy, Debug, PartialEq)]
pub struct CopyModifier {
    pub event_time: EventTime,
    pub win: Option<bool>,
    pub copy: Copy,
}

/// Swaps base stats between the two cards in play, or imposes one.
#[derive(Clone, Copy, Debug, PartialEq)]
pub struct ExchangeModifier {
    pub event_time: EventTime,
    pub win: Option<bool>,
    pub ex: Exchange,
}

/// Protects something on the acting card or, with `both`, on both cards.
#[derive(Clone, Copy, Debug, PartialEq)]
pub struct ProtectionModifier {
    pub event_time: EventTime,
    pub win: Option<bool>,
    pub prot: Protect,
    pub both: bool,
}

/// Gives back `n` out of every `out_of` pillz spent.
#[derive(Clone, Copy, Debug, PartialEq)]
pub struct RecoverModifier {
    pub event_time: EventTime,
    pub win: Option<bool>,
    pub n: u8,
    pub out_of: u8,
}

/// One effect of an ability.
#[derive(Debug, Clone, Copy, PartialEq)]
pub enum Modifier {
    Basic(BasicModifier),
    Cancel(CancelModifier),
    Copy(CopyModifier),
    Exchange(ExchangeModifier),
    Protection(ProtectionModifier),
    Recover(RecoverModifier),
}

impl Modifier {
    /// The checkpoint at which the modifier fires.
    pub open spec fn spec_event_time(self) -> EventTime {
        match self {
            Modifier::Basic(inner) => inner.event_time,
            Modifier::Cancel(inner) => inner.event_time,
            Modifier::Copy(inner) => inner.event_time,
            Modifier::Exchange(inner) => inner.event_time,
            Modifier::Protection(inner) => inner.event_time,
            Modifier::Recover(inner) => inner.event_time,
        }
    }

    /// The checkpoint at which the modifier fires.
    pub fn event_time(&self) -> (time: EventTime)
        ensures
            time == self.spec_event_time(),
    {
        match self {
            Modifier::Basic(inner) => inner.event_time,
            Modifier::Cancel(inner) => inner.event_time,
            Modifier::Copy(inner) => inner.event_time,
            Modifier::Exchange(inner) => inner.event_time,
            Modifier::Protection(inner) => inner.event_time,
            Modifier::Recover(inner) => inner.event_time,
        }
    }
}

impl BasicModifier {
    /// The number of units that the change is counted per.
    pub open spec fn spec_multiplier(self, data: BattleData) -> int {
        match self.per {
            None => 1,
            Some(per) => {
                let player = if self.opp {
                    data.opp
                } else {
                    data.player
                };
                let card = if self.opp {
                    data.opposing()
                } else {
                    data.acting()
                };
                match per {
                    Per::Power => card.power.value as int,
                    Per::Damage => card.damage.value as int,
                    Per::Life => player.life as int,
                    Per::Pillz => player.pillz as int,
                    Per::Support => data.hand.clan_count[data.acting().index as int] as int,
                    Per::Brawl => data.opp_hand.clan_count[data.opposing().index as int] as int,
                    Per::Growth => 1 + data.round,
                    Per::Degrowth => 4 - data.round,
                    Per::Equalizer => data.opposing().level as int,
                    Per::Symmetry => if data.acting().index == data.opposing().index {
                        1
                    } else {
                        0
                    },
                    Per::Asymmetry => if data.acting().index != data.opposing().index {
                        1
                    } else {
                        0
                    },
                    _ => 1,
                }
            },
        }
    }

    /// What a stat at `base` becomes: unchanged where `base` is below `min`
    /// or not below `max`; else `base` plus the change times the multiplier,
    /// kept from `min` up to, not including, `max`: raised to `min` where it
    /// is less, lowered to one below `max` where it is `max` or more.
    pub open spec fn spec_modify(self, base: int, data: BattleData) -> int {
        if base < self.min || base >= self.max {
            base
        } else {
            let value = base + self.change * self.spec_multiplier(data);
            if value < self.min {
                self.min as int
            } else if value >= self.max {
                self.max - 1
            } else {
                value
            }
        }
    }

    /// Whether the modifier takes effect. One marked `always` does. Another
    /// does not where it waits for a win that the acting card has not had,
    /// where the stat is blocked on the acting card, where it aims at the
    /// opposing side and the stat is protected there, or where it aims at the
    /// life of a player who has none left.
    pub open spec fn spec_can_apply(self, data: BattleData) -> bool {
        if self.always {
            true
        } else if self.win == Some(true) && !data.acting().won {
            false
        } else if self.opp {
            &&& !data.opposing().spec_attr(self.stat).spec_is_protected()
            &&& !data.acting().spec_attr(self.stat).spec_is_blocked()
            &&& (self.stat == Stat::Life ==> data.opp.life > 0)
        } else {
            &&& !data.acting().spec_attr(self.stat).spec_is_blocked()
            &&& (self.stat == Stat::Life ==> data.player.life > 0)
        }
    }

    /// The round after the modifier.
    pub open spec fn spec_apply(self, data: BattleData) -> BattleData {
        if self.spec_can_apply(data) {
            data.spec_with_stat(
                self.opp,
                self.stat,
                self.spec_modify(data.spec_stat(self.opp, self.stat), data),
            )
        } else {
            data
        }
    }

    fn get_multiplier(&self, data: &BattleData) -> (multiplier: i64)
        requires
            data.placed(),
        ensures
            multiplier == self.spec_multiplier(*data),
            -251 <= multiplier <= 256,
    {
        let per = match self.per {
            None => {
                return 1;
            },
            Some(per) => per,
        };
        let player_card = data.acting_card();
        let opp_card = data.opposing_card();
        let player = if self.opp {
            data.opp
        } else {
            data.player
        };
        let card = if self.opp {
            opp_card
        } else {
            player_card
        };
        match per {
            Per::Power => card.power.value as i64,
            Per::Damage => card.damage.value as i64,
            Per::Life => player.life as i64,
            Per::Pillz => player.pillz as i64,
            Per::Support => data.hand.card_clan_count(player_card.index) as i64,
            Per::Brawl => data.opp_hand.card_clan_count(opp_card.index) as i64,
            Per::Growth => 1 + data.round as i64,
            Per::Degrowth => 4 - data.round as i64,
            Per::Equalizer => opp_card.level as i64,
            Per::Symmetry => if player_card.index == opp_card.index {
                1
            } else {
                0
            },
            Per::Asymmetry => if player_card.index != opp_card.index {
                1
            } else {
                0
            },
            _ => 1,
        }
    }

    fn modify(&self, base: u16, data: &BattleData) -> (value: i64)
        requires
            data.placed(),
        ensures
            value == self.spec_modify(base as int, *data),
    {
        if (base as i64) < self.min as i64 || (base as i64) >= self.max as i64 {
            return base as i64;
        }
        let multiplier = self.get_multiplier(data);
        let step = self.change as i64;
        assert(-0x100_0000_0000 <= step * multiplier <= 0x100_0000_0000) by (nonlinear_arith)
            requires
                -0x8000_0000 <= step <= 0x8000_0000,
                -251 <= multiplier <= 256,
        ;
        let value = base as i64 + step * multiplier;
        if value < self.min as i64 {
            self.min as i64
        } else if value >= self.max as i64 {
            self.max as i64 - 1
        } else {
            value
        }
    }

    fn can_apply(&self, data: &BattleData) -> (can: bool)
        requires
            data.placed(),
        ensures
            can == self.spec_can_apply(*data),
    {
        if self.always {
            return true;
        }
        let card = data.acting_card();
        if matches!(self.win, Some(true)) && !card.won {
            return false;
        }
        let life = matches!(self.stat, Stat::Life);
        if self.opp {
            let opp_card = data.opposing_card();
            !opp_card.attr(self.stat).is_protected() && !card.attr(self.stat).is_blocked() && (!life
                || data.opp.life > 0)
        } else {
            !card.attr(self.stat).is_blocked() && (!life || data.player.life > 0)
        }
    }

    /// Changes the stat, if the modifier takes effect.
    pub fn apply(&mut self, data: &mut BattleData)
        requires
            old(data).placed(),
        ensures
            *final(self) == *old(self),
            *final(data) == old(self).spec_apply(*old(data)),
    {
        if self.can_apply(data) {
            let base = data.stat(self.opp, self.stat);
            let value = self.modify(base, data);
            data.set_stat(self.opp, self.stat, value);
        }
    }
}

impl CancelModifier {
    /// The modifier and the round after the cancel: the modifier remembers
    /// that it is applied, and the opposing card counts one more cancel.
    pub open spec fn spec_apply(self, data: BattleData) -> (CancelModifier, BattleData) {
        let card = data.opposing();
        (
            CancelModifier { applied: Some(true), ..self },
            data.with_opposing(
                card.spec_with_cancel_attr(self.cancel, card.spec_cancel_attr(self.cancel).spec_cancel()),
            ),
        )
    }

    /// The modifier and the round after the cancel was taken back: the
    /// modifier remembers that it is not applied, and the opposing card counts
    /// one cancel less.
    pub open spec fn spec_undo(self, data: BattleData) -> (CancelModifier, BattleData) {
        let card = data.opposing();
        (
            CancelModifier { applied: Some(false), ..self },
            data.with_opposing(
                card.spec_with_cancel_attr(
                    self.cancel,
                    card.spec_cancel_attr(self.cancel).spec_remove_cancel(),
                ),
            ),
        )
    }

    /// Cancels on the opposing card and remembers it.
    pub fn apply(&mut self, data: &mut BattleData)
        requires
            old(data).placed(),
        ensures
            (*final(self), *final(data)) == old(self).spec_apply(*old(data)),
    {
        self.applied = Some(true);
        let mut opp_card = data.opposing_card();
        let mut attr = opp_card.cancel_attr(self.cancel);
        attr.cancel();
        opp_card.set_cancel_attr(self.cancel, attr);
        data.set_opposing(opp_card);
    }

    /// Takes the cancel on the opposing card back and remembers it.
    pub fn undo(&mut self, data: &mut BattleData)
        requires
            old(data).placed(),
        ensures
            (*final(self), *final(data)) == old(self).spec_undo(*old(data)),
    {
        self.applied = Some(false);
        let mut opp_card = data.opposing_card();
        let mut attr = opp_card.cancel_attr(self.cancel);
        attr.remove_cancel();
        opp_card.set_cancel_attr(self.cancel, attr);
        data.set_opposing(opp_card);
    }
}

/// The kind under which an ability acts when it is taken over as a bonus;
/// none for a `Global` one, which cannot be taken over.
pub open spec fn spec_as_bonus(kind: AbilityType) -> Option<AbilityType> {
    match kind {
        AbilityType::Ability => Some(AbilityType::Bonus),
        AbilityType::GlobalAbility => Some(AbilityType::GlobalBonus),
        AbilityType::Global => None,
        AbilityType::Bonus => Some(AbilityType::Bonus),
        AbilityType::GlobalBonus => Some(AbilityType::GlobalBonus),
    }
}

/// The kind under which a bonus acts when it is taken over as an ability;
/// none for a `Global` one, which cannot be taken over.
pub open spec fn spec_as_ability(kind: AbilityType) -> Option<AbilityType> {
    match kind {
        AbilityType::Bonus => Some(AbilityType::Ability),
        AbilityType::GlobalBonus => Some(AbilityType::GlobalAbility),
        AbilityType::Global => None,
        AbilityType::Ability => Some(AbilityType::Ability),
        AbilityType::GlobalAbility => Some(AbilityType::GlobalAbility),
    }
}

/// The kind under which an ability acts when it is taken over as a bonus.
pub fn as_bonus(kind: AbilityType) -> (mapped: Option<AbilityType>)
    ensures
        mapped == spec_as_bonus(kind),
{
    match kind {
        AbilityType::Ability => Some(AbilityType::Bonus),
        AbilityType::GlobalAbility => Some(AbilityType::GlobalBonus),
        AbilityType::Global => None,
        AbilityType::Bonus => Some(AbilityType::Bonus),
        AbilityType::GlobalBonus => Some(AbilityType::GlobalBonus),
    }
}

/// The kind under which a bonus acts when it is taken over as an ability.
pub fn as_ability(kind: AbilityType) -> (mapped: Option<AbilityType>)
    ensures
        mapped == spec_as_ability(kind),
{
    match kind {
        AbilityType::Bonus => Some(AbilityType::Ability),
        AbilityType::GlobalBonus => Some(AbilityType::GlobalAbility),
        AbilityType::Global => None,
        AbilityType::Ability => Some(AbilityType::Ability),
        AbilityType::GlobalAbility => Some(AbilityType::GlobalAbility),
    }
}

/// The first position from `from` on, other than the acting card's, whose
/// card is of the clan that the hand's wildcard stands for.
pub open spec fn spec_infiltrated(data: BattleData, catalog: Catalog, from: int) -> Option<int>
    decreases 4 - from,
{
    if from >= 4 || from < 0 {
        None
    } else if from != data.acting().index && data.hand.cards[from].spec_clan(catalog)
        == data.hand.oculus_clan {
        Some(from)
    } else {
        spec_infiltrated(data, catalog, from + 1)
    }
}

impl CopyModifier {
    /// The round after the copy, and the ability that the copy brings into
    /// play, if it brings one.
    pub open spec fn spec_apply(self, data: BattleData, catalog: Catalog) -> (
        BattleData,
        Option<Ability>,
    ) {
        let card = data.acting();
        let opp_card = data.opposing();
        match self.copy {
            Copy::Power => (
                data.with_acting(
                    Card { power: CardStat { value: opp_card.power.base, ..card.power }, ..card },
                ),
                None,
            ),
            Copy::Damage => (
                data.with_acting(
                    Card { damage: CardStat { value: opp_card.damage.base, ..card.damage }, ..card },
                ),
                None,
            ),
            Copy::Ability => {
                let taken = catalog.ability(opp_card.ability_id);
                (
                    data.with_acting(
                        Card { bonus: opp_card.ability, bonus_id: opp_card.ability_id, ..card },
                    ),
                    match spec_as_bonus(taken.ability_type) {
                        Some(kind) => Some(Ability { ability_type: kind, ..taken }),
                        None => None,
                    },
                )
            },
            Copy::Bonus => {
                let taken = catalog.ability(opp_card.bonus_id);
                (
                    data.with_acting(
                        Card { ability: opp_card.bonus, ability_id: opp_card.bonus_id, ..card },
                    ),
                    match spec_as_ability(taken.ability_type) {
                        Some(kind) => Some(Ability { ability_type: kind, ..taken }),
                        None => None,
                    },
                )
            },
            Copy::Infiltrate => if data.hand.oculus_clan == Clan::NoClan {
                (data, None)
            } else {
                match spec_infiltrated(data, catalog, 0) {
                    Some(i) => {
                        let source = data.hand.cards[i];
                        (
                            data.with_acting(
                                Card { bonus: source.bonus, bonus_id: source.bonus_id, ..card },
                            ),
                            Some(catalog.ability(source.bonus_id)),
                        )
                    },
                    None => (data, None),
                }
            },
        }
    }

    /// Copies, and hands back the ability that the copy brings into play.
    pub fn apply(&mut self, data: &mut BattleData, catalog: &Catalog) -> (spawned: Option<Ability>)
        requires
            old(data).wf(*catalog),
        ensures
            *final(self) == *old(self),
            (*final(data), spawned) == old(self).spec_apply(*old(data), *catalog),
            final(data).wf(*catalog),
    {
        let mut card = data.acting_card();
        let opp_card = data.opposing_card();
        proof {
            crate::battle::lemma_replace_keeps_wf(*data, *catalog, card);
        }
        match self.copy {
            Copy::Power => {
                card.power.value = opp_card.power.base;
                proof {
                    crate::battle::lemma_replace_keeps_wf(*data, *catalog, card);
                }
                data.set_acting(card);
                None
            },
            Copy::Damage => {
                card.damage.value = opp_card.damage.base;
                proof {
                    crate::battle::lemma_replace_keeps_wf(*data, *catalog, card);
                }
                data.set_acting(card);
                None
            },
            Copy::Ability => {
                card.bonus = opp_card.ability;
                card.bonus_id = opp_card.ability_id;
                proof {
                    crate::battle::lemma_replace_keeps_wf(*data, *catalog, card);
                }
                data.set_acting(card);
                let mut bonus = card.get_bonus(catalog);
                match as_bonus(bonus.ability_type) {
                    Some(kind) => {
                        bonus.ability_type = kind;
                        Some(bonus)
                    },
                    None => None,
                }
            },
            Copy::Bonus => {
                card.ability = opp_card.bonus;
                card.ability_id = opp_card.bonus_id;
                proof {
                    crate::battle::lemma_replace_keeps_wf(*data, *catalog, card);
                }
                data.set_acting(card);
                let mut ability = card.get_ability(catalog);
                match as_ability(ability.ability_type) {
                    Some(kind) => {
                        ability.ability_type = kind;
                        Some(ability)
                    },
                    None => None,
                }
            },
            Copy::Infiltrate => {
                let clan = data.hand.oculus_clan;
                if clan != Clan::NoClan {
                    let mut i: usize = 0;
                    while i < 4
                        invariant
                            i <= 4,
                            *self == *old(self),
                            self.copy == Copy::Infiltrate,
                            *data == *old(data),
                            data.wf(*catalog),
                            card == data.acting(),
                            clan == data.hand.oculus_clan,
                            clan != Clan::NoClan,
                            spec_infiltrated(*data, *catalog, 0) == spec_infiltrated(
                                *data,
                                *catalog,
                                i as int,
                            ),
                        decreases 4 - i,
                    {
                        if i != card.index {
                            let clan_card = data.hand.cards[i];
                            if clan_card.clan(catalog) == clan {
                                assert(spec_infiltrated(*data, *catalog, i as int) == Some(i as int));
                                card.bonus = clan_card.bonus;
                                card.bonus_id = clan_card.bonus_id;
                                proof {
                                    crate::battle::lemma_replace_keeps_wf(*data, *catalog, card);
                                }
                                data.set_acting(card);
                                return Some(card.get_bonus(catalog));
                            }
                        }
                        i += 1;
                    }
                }
                None
            },
        }
    }
}

impl ExchangeModifier {
    /// The round after the exchange. Nothing happens where the stat is blocked
    /// on the acting card.
    pub open spec fn spec_apply(self, data: BattleData) -> BattleData {
        let card = data.acting();
        let opp_card = data.opposing();
        match self.ex {
            Exchange::Power => if card.power.attr.spec_is_blocked() {
                data
            } else {
                data.with_acting(
                    Card { power: CardStat { value: opp_card.power.base, ..card.power }, ..card },
                ).with_opposing(
                    Card { power: CardStat { value: card.power.base, ..opp_card.power }, ..opp_card },
                )
            },
            Exchange::Damage => if card.damage.attr.spec_is_blocked() {
                data
            } else {
                data.with_acting(
                    Card { damage: CardStat { value: opp_card.damage.base, ..card.damage }, ..card },
                ).with_opposing(
                    Card {
                        damage: CardStat { value: card.damage.base, ..opp_card.damage },
                        ..opp_card
                    },
                )
            },
            Exchange::ImposePower => if card.power.attr.spec_is_blocked() {
                data
            } else {
                data.with_opposing(
                    Card { power: CardStat { value: card.power.base, ..opp_card.power }, ..opp_card },
                )
            },
            Exchange::ImposeDamage => if card.damage.attr.spec_is_blocked() {
                data
            } else {
                data.with_opposing(
                    Card {
                        damage: CardStat { value: card.damage.base, ..opp_card.damage },
                        ..opp_card
                    },
                )
            },
        }
    }

    /// Swaps or imposes base stats.
    pub fn apply(&mut self, data: &mut BattleData)
        requires
            old(data).placed(),
        ensures
            *final(self) == *old(self),
            *final(data) == old(self).spec_apply(*old(data)),
    {
        let mut card = data.acting_card();
        let mut opp_card = data.opposing_card();
        match self.ex {
            Exchange::Power => {
                if !card.power.attr.is_blocked() {
                    card.power.value = opp_card.power.base;
                    opp_card.power.value = card.power.base;
                    data.set_acting(card);
                    data.set_opposing(opp_card);
                }
            },
            Exchange::Damage => {
                if !card.damage.attr.is_blocked() {
                    card.damage.value = opp_card.damage.base;
                    opp_card.damage.value = card.damage.base;
                    data.set_acting(card);
                    data.set_opposing(opp_card);
                }
            },
            Exchange::ImposePower => {
                if !card.power.attr.is_blocked() {
                    opp_card.power.value = card.power.base;
                    data.set_opposing(opp_card);
                }
            },
            Exchange::ImposeDamage => {
                if !card.damage.attr.is_blocked() {
                    opp_card.damage.value = card.damage.base;
                    data.set_opposing(opp_card);
                }
            },
        }
    }
}

impl ProtectionModifier {
    /// The round after the protection: the acting card and, with `both`, the
    /// opposing card count one more.
    pub open spec fn spec_apply(self, data: BattleData) -> BattleData {
        let own = data.with_acting(data.acting().spec_protected(self.prot));
        if self.both {
            own.with_opposing(data.opposing().spec_protected(self.prot))
        } else {
            own
        }
    }

    /// Protects.
    pub fn apply(&mut self, data: &mut BattleData)
        requires
            old(data).placed(),
        ensures
            *final(self) == *old(self),
            *final(data) == old(self).spec_apply(*old(data)),
    {
        let mut card = data.acting_card();
        let mut opp_card = data.opposing_card();
        card.protect(self.prot);
        data.set_acting(card);
        if self.both {
            opp_card.protect(self.prot);
            data.set_opposing(opp_card);
        }
    }
}

impl RecoverModifier {
    /// The pillz given back: `n` out of every `out_of` spent, rounded down;
    /// none where `out_of` is 0.
    pub open spec fn spec_gain(self, data: BattleData) -> int {
        if self.out_of == 0 {
            0
        } else {
            (data.player_pillz_used * self.n) / (self.out_of as int)
        }
    }

    /// The round after the recovery: the acting player has the gain more, and
    /// at most 255. Nothing happens where pillz are blocked on the acting
    /// card.
    pub open spec fn spec_apply(self, data: BattleData) -> BattleData {
        if data.acting().pillz.spec_is_blocked() {
            data
        } else {
            let total = data.player.pillz + self.spec_gain(data);
            BattleData {
                player: Player {
                    pillz: if total > 255 {
                        255u8
                    } else {
                        total as u8
                    },
                    ..data.player
                },
                ..data
            }
        }
    }

    /// Gives pillz back.
    pub fn apply(&mut self, data: &mut BattleData)
        requires
            old(data).placed(),
        ensures
            *final(self) == *old(self),
            *final(data) == old(self).spec_apply(*old(data)),
    {
        if !data.acting_card().pillz.is_blocked() {
            let gain: u32 = if self.out_of == 0 {
                0
            } else {
                assert(data.player_pillz_used * self.n <= 255 * 255) by (nonlinear_arith)
                    requires
                        data.player_pillz_used <= 255,
                        self.n <= 255,
                ;
                (data.player_pillz_used as u32 * self.n as u32) / (self.out_of as u32)
            };
            let total: u32 = data.player.pillz as u32 + gain;
            data.player.pillz = if total > 255 {
                255
            } else {
                total as u8
            };
        }
    }
}

/// What applying a modifier gives: the modifier as it is afterwards, the round
/// as it is afterwards and the ability that came into play, if one did.
pub struct ModifierOutcome {
    pub modifier: Modifier,
    pub data: BattleData,
    pub spawned: Option<Ability>,
}

impl Modifier {
    /// What applying the modifier to a round gives.
    pub open spec fn spec_apply(self, data: BattleData, catalog: Catalog) -> ModifierOutcome {
        match self {
            Modifier::Basic(inner) => ModifierOutcome {
                modifier: self,
                data: inner.spec_apply(data),
                spawned: None,
            },
            Modifier::Cancel(inner) => ModifierOutcome {
                modifier: Modifier::Cancel(inner.spec_apply(data).0),
                data: inner.spec_apply(data).1,
                spawned: None,
            },
            Modifier::Copy(inner) => ModifierOutcome {
                modifier: self,
                data: inner.spec_apply(data, catalog).0,
                spawned: inner.spec_apply(data, catalog).1,
            },
            Modifier::Exchange(inner) => ModifierOutcome {
                modifier: self,
                data: inner.spec_apply(data),
                spawned: None,
            },
            Modifier::Protection(inner) => ModifierOutcome {
                modifier: self,
                data: inner.spec_apply(data),
                spawned: None,
            },
            Modifier::Recover(inner) => ModifierOutcome {
                modifier: self,
                data: inner.spec_apply(data),
                spawned: None,
            },
        }
    }

    /// Applies the modifier to the round and hands back the ability that came
    /// into play, if one did.
    pub fn apply(&mut self, data: &mut BattleData, catalog: &Catalog) -> (spawned: Option<Ability>)
        requires
            old(data).wf(*catalog),
        ensures
            (ModifierOutcome { modifier: *final(self), data: *final(data), spawned }) == old(
                self,
            ).spec_apply(*old(data), *catalog),
            final(data).wf(*catalog),
    {
        proof {
            lemma_modifier_keeps_wf(*self, *data, *catalog);
        }
        match self {
            Modifier::Basic(inner) => {
                inner.apply(data);
                None
            },
            Modifier::Cancel(inner) => {
                inner.apply(data);
                None
            },
            Modifier::Copy(inner) => inner.apply(data, catalog),
            Modifier::Exchange(inner) => {
                inner.apply(data);
                None
            },
            Modifier::Protection(inner) => {
                inner.apply(data);
                None
            },
            Modifier::Recover(inner) => {
                inner.apply(data);
                None
            },
        }
    }
}

/// A basic modifier leaves the round well formed and steady.
pub proof fn lemma_basic_keeps_wf(modifier: BasicModifier, data: BattleData, catalog: Catalog)
    requires
        data.wf(catalog),
    ensures
        modifier.spec_apply(data).wf(catalog),
        spec_steady(data, modifier.spec_apply(data)),
{
    lemma_steady_chain(data, data, data);
    if modifier.spec_can_apply(data) {
        let value = modifier.spec_modify(data.spec_stat(modifier.opp, modifier.stat), data);
        let card = if modifier.opp {
            data.opposing()
        } else {
            data.acting()
        };
        match modifier.stat {
            Stat::Power => lemma_with_card_steady(
                data,
                catalog,
                modifier.opp,
                Card { power: CardStat { value: value as u8, ..card.power }, ..card },
            ),
            Stat::Damage => lemma_with_card_steady(
                data,
                catalog,
                modifier.opp,
                Card { damage: CardStat { value: value as u8, ..card.damage }, ..card },
            ),
            Stat::Attack => lemma_with_card_steady(
                data,
                catalog,
                modifier.opp,
                Card { attack: AttackStat { value: value as u16, ..card.attack }, ..card },
            ),
            Stat::Life => {},
            Stat::Pillz => {},
        }
    }
}

/// A cancel, made or taken back, leaves the round well formed and steady.
pub proof fn lemma_cancel_keeps_wf(modifier: CancelModifier, data: BattleData, catalog: Catalog)
    requires
        data.wf(catalog),
    ensures
        modifier.spec_apply(data).1.wf(catalog),
        spec_steady(data, modifier.spec_apply(data).1),
        modifier.spec_undo(data).1.wf(catalog),
        spec_steady(data, modifier.spec_undo(data).1),
{
    let card = data.opposing();
    lemma_with_card_steady(
        data,
        catalog,
        true,
        card.spec_with_cancel_attr(modifier.cancel, card.spec_cancel_attr(modifier.cancel).spec_cancel()),
    );
    lemma_with_card_steady(
        data,
        catalog,
        true,
        card.spec_with_cancel_attr(
            modifier.cancel,
            card.spec_cancel_attr(modifier.cancel).spec_remove_cancel(),
        ),
    );
}

/// A copy leaves the round well formed and steady.
pub proof fn lemma_copy_keeps_wf(modifier: CopyModifier, data: BattleData, catalog: Catalog)
    requires
        data.wf(catalog),
    ensures
        modifier.spec_apply(data, catalog).0.wf(catalog),
        spec_steady(data, modifier.spec_apply(data, catalog).0),
{
    lemma_steady_chain(data, data, data);
    let card = data.acting();
    let opp_card = data.opposing();
    match modifier.copy {
        Copy::Power => lemma_with_card_steady(
            data,
            catalog,
            false,
            Card { power: CardStat { value: opp_card.power.base, ..card.power }, ..card },
        ),
        Copy::Damage => lemma_with_card_steady(
            data,
            catalog,
            false,
            Card { damage: CardStat { value: opp_card.damage.base, ..card.damage }, ..card },
        ),
        Copy::Ability => lemma_with_card_steady(
            data,
            catalog,
            false,
            Card { bonus: opp_card.ability, bonus_id: opp_card.ability_id, ..card },
        ),
        Copy::Bonus => lemma_with_card_steady(
            data,
            catalog,
            false,
            Card { ability: opp_card.bonus, ability_id: opp_card.bonus_id, ..card },
        ),
        Copy::Infiltrate => {
            lemma_infiltrated(data, catalog, 0);
            if data.hand.oculus_clan != Clan::NoClan {
                match spec_infiltrated(data, catalog, 0) {
                    Some(i) => {
                        let source = data.hand.cards[i];
                        lemma_with_card_steady(
                            data,
                            catalog,
                            false,
                            Card { bonus: source.bonus, bonus_id: source.bonus_id, ..card },
                        );
                    },
                    None => {},
                }
            }
        },
    }
}

/// An exchange leaves the round well formed and steady.
pub proof fn lemma_exchange_keeps_wf(modifier: ExchangeModifier, data: BattleData, catalog: Catalog)
    requires
        data.wf(catalog),
    ensures
        modifier.spec_apply(data).wf(catalog),
        spec_steady(data, modifier.spec_apply(data)),
{
    lemma_steady_chain(data, data, data);
    let card = data.acting();
    let opp_card = data.opposing();
    let own_power = Card { power: CardStat { value: opp_card.power.base, ..card.power }, ..card };
    let opp_power = Card { power: CardStat { value: card.power.base, ..opp_card.power }, ..opp_card };
    let own_damage = Card { damage: CardStat { value: opp_card.damage.base, ..card.damage }, ..card };
    let opp_damage = Card {
        damage: CardStat { value: card.damage.base, ..opp_card.damage },
        ..opp_card
    };
    match modifier.ex {
        Exchange::Power => {
            lemma_with_card_steady(data, catalog, false, own_power);
            lemma_with_card_steady(data.with_acting(own_power), catalog, true, opp_power);
            lemma_steady_chain(
                data,
                data.with_acting(own_power),
                data.with_acting(own_power).with_opposing(opp_power),
            );
        },
        Exchange::Damage => {
            lemma_with_card_steady(data, catalog, false, own_damage);
            lemma_with_card_steady(data.with_acting(own_damage), catalog, true, opp_damage);
            lemma_steady_chain(
                data,
                data.with_acting(own_damage),
                data.with_acting(own_damage).with_opposing(opp_damage),
            );
        },
        Exchange::ImposePower => lemma_with_card_steady(data, catalog, true, opp_power),
        Exchange::ImposeDamage => lemma_with_card_steady(data, catalog, true, opp_damage),
    }
}

/// A protection leaves the round well formed and steady.
pub proof fn lemma_protection_keeps_wf(
    modifier: ProtectionModifier,
    data: BattleData,
    catalog: Catalog,
)
    requires
        data.wf(catalog),
    ensures
        modifier.spec_apply(data).wf(catalog),
        spec_steady(data, modifier.spec_apply(data)),
{
    let own = data.acting().spec_protected(modifier.prot);
    let other = data.opposing().spec_protected(modifier.prot);
    lemma_with_card_steady(data, catalog, false, own);
    lemma_with_card_steady(data.with_acting(own), catalog, true, other);
    lemma_steady_chain(data, data.with_acting(own), data.with_acting(own).with_opposing(other));
}

/// A modifier leaves the round well formed and steady.
pub proof fn lemma_modifier_keeps_wf(modifier: Modifier, data: BattleData, catalog: Catalog)
    requires
        data.wf(catalog),
    ensures
        modifier.spec_apply(data, catalog).data.wf(catalog),
        spec_steady(data, modifier.spec_apply(data, catalog).data),
{
    match modifier {
        Modifier::Basic(inner) => lemma_basic_keeps_wf(inner, data, catalog),
        Modifier::Cancel(inner) => lemma_cancel_keeps_wf(inner, data, catalog),
        Modifier::Copy(inner) => lemma_copy_keeps_wf(inner, data, catalog),
        Modifier::Exchange(inner) => lemma_exchange_keeps_wf(inner, data, catalog),
        Modifier::Protection(inner) => lemma_protection_keeps_wf(inner, data, catalog),
        Modifier::Recover(inner) => {
            lemma_steady_chain(data, data, data);
        },
    }
}

/// A position that `spec_infiltrated` gives is a position of the hand, from
/// `from` on.
pub proof fn lemma_infiltrated(data: BattleData, catalog: Catalog, from: int)
    requires
        0 <= from,
    ensures
        spec_infiltrated(data, catalog, from) matches Some(i) ==> from <= i < 4,
    decreases 4 - from,
{
    if from < 4 {
        lemma_infiltrated(data, catalog, from + 1);
    }
}

} // verus!
