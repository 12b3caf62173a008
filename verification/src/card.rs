use vstd::prelude::*;
use chrono::Datelike;
use rand::seq::SliceRandom;
use regex::{Captures, Regex};
use crate::ability::Ability;
use crate::catalog::Catalog;
use crate::modifiers::{Cancel, Protect, Stat};
use crate::types::{clan_tag, Clan, Rarity};

verus! {

/// A card as the card data file has it.
#[derive(Clone, Debug)]
pub struct CardData {
    pub id: u32,
    pub name: String,
    pub clan: Clan,
    pub level: u8,
    pub level_max: u8,
    pub power: u8,
    pub damage: u8,
    pub rarity: String,
    pub ability_id: u32,
    pub ability: String,
    pub bonus_id: u32,
    pub bonus: String,
    pub release_date: u32,
}

/// The calendar year, in universal time, in which the moment that many
/// seconds after the start of 1970 falls.
pub uninterp spec fn spec_year_of(seconds: u32) -> u32;

/// `NaiveDateTime::from_timestamp`, `date` and `Datelike::year` of chrono: the
/// calendar year of a moment given in seconds since the start of 1970. Every
/// such moment is within the range of dates that chrono knows, and its year,
/// between 1970 and 2106, is kept by the conversion.
#[verifier::external_body]
#[allow(deprecated)]
fn timestamp_year(seconds: u32) -> (year: u32)
    ensures
        year == spec_year_of(seconds),
{
    chrono::NaiveDateTime::from_timestamp(seconds as i64, 0).date().year() as u32
}

/// An ability text in which every clan reference, `[clan:` or `[Clan:`, a
/// number and `]`, was replaced by what `clan_tag` makes of it.
pub uninterp spec fn spec_tagged_text(text: Seq<char>) -> Seq<char>;

/// `Regex::replace_all` of regex with the pattern of a clan reference: the
/// text in which each reference, from left to right, was replaced by what
/// `clan_tag` makes of the reference and its number. The pattern is valid, and
/// its one group takes part in every match.
#[verifier::external_body]
fn replace_clan_references(text: &str) -> (replaced: String)
    ensures
        replaced@ == spec_tagged_text(text@),
{
    Regex::new(r"\[[Cc]lan:(\d+)\]").unwrap().replace_all(
        text,
        |caps: &Captures| clan_tag(&caps[0], &caps[1]),
    ).into_owned()
}

impl CardData {
    /// The year the card came out.
    pub fn year(&self) -> (year: u32)
        ensures
            year == spec_year_of(self.release_date),
    {
        timestamp_year(self.release_date)
    }
}

/// A catalog entry: what a card is before any round has touched it.
#[derive(Clone, Debug)]
pub struct BaseCard {
    pub id: u32,
    pub name: String,
    pub clan: Clan,
    pub level: u8,
    pub level_max: u8,
    pub power: u8,
    pub damage: u8,
    pub rarity: Rarity,
    pub ability_id: u32,
    pub ability: String,
    pub bonus_id: u32,
    pub bonus: String,
    pub year: u32,
}

/// How often something on a card was cancelled and how often protected.
#[derive(Clone, Copy, Debug)]
pub struct CardAttr {
    pub cancelled: u8,
    pub protected: u8,
}

impl Default for CardAttr {
    fn default() -> (attr: Self)
        ensures
            attr.cancelled == 0,
            attr.protected == 0,
    {
        CardAttr { cancelled: 0, protected: 0 }
    }
}

impl CardAttr {
    /// The attribute after one more cancel; the count stays at 255 once there.
    pub open spec fn spec_cancel(self) -> CardAttr {
        CardAttr {
            cancelled: if self.cancelled < 255 {
                (self.cancelled + 1) as u8
            } else {
                self.cancelled
            },
            ..self
        }
    }

    /// The attribute after one cancel was taken back; the count stays at 0
    /// once there.
    pub open spec fn spec_remove_cancel(self) -> CardAttr {
        CardAttr {
            cancelled: if self.cancelled > 0 {
                (self.cancelled - 1) as u8
            } else {
                self.cancelled
            },
            ..self
        }
    }

    /// The attribute after one more protection; the count stays at 255 once
    /// there.
    pub open spec fn spec_protect(self) -> CardAttr {
        CardAttr {
            protected: if self.protected < 255 {
                (self.protected + 1) as u8
            } else {
                self.protected
            },
            ..self
        }
    }

    /// Cancelled at least once and never protected.
    pub open spec fn spec_is_blocked(&self) -> bool {
        self.protected == 0 && self.cancelled != 0
    }

    /// Protected at least once.
    pub open spec fn spec_is_protected(&self) -> bool {
        self.protected != 0
    }

    /// Counts one more cancel.
    pub fn cancel(&mut self)
        ensures
            *final(self) == old(self).spec_cancel(),
    {
        self.cancelled = self.cancelled.saturating_add(1);
    }

    /// Takes one cancel back.
    pub fn remove_cancel(&mut self)
        ensures
            *final(self) == old(self).spec_remove_cancel(),
    {
        self.cancelled = self.cancelled.saturating_sub(1);
    }

    /// Counts one more protection.
    pub fn protect(&mut self)
        ensures
            *final(self) == old(self).spec_protect(),
    {
        self.protected = self.protected.saturating_add(1);
    }

    /// Whether what the attribute stands for is out of action: cancelled and
    /// not protected.
    #[verifier::when_used_as_spec(spec_is_blocked)]
    pub fn is_blocked(&self) -> (blocked: bool)
        ensures
            blocked == self.spec_is_blocked(),
    {
        self.protected == 0 && self.cancelled != 0
    }

    /// Whether what the attribute stands for is protected.
    #[verifier::when_used_as_spec(spec_is_protected)]
    pub fn is_protected(&self) -> (protected: bool)
        ensures
            protected == self.spec_is_protected(),
    {
        self.protected != 0
    }
}

/// Power or damage of a card: the value it started with and its value now.
#[derive(Clone, Copy, Debug)]
pub struct CardStat {
    pub attr: CardAttr,
    pub base: u8,
    pub value: u8,
}

impl CardStat {
    /// A stat that starts at `val`, neither cancelled nor protected.
    pub fn new(val: u8) -> (stat: Self)
        ensures
            stat == (CardStat { attr: CardAttr { cancelled: 0, protected: 0 }, base: val, value: val }),
    {
        CardStat { attr: CardAttr::default(), base: val, value: val }
    }
}

impl Default for CardStat {
    fn default() -> (stat: Self)
        ensures
            stat == (CardStat { attr: CardAttr { cancelled: 0, protected: 0 }, base: 0, value: 0 }),
    {
        CardStat { attr: CardAttr::default(), base: 0, value: 0 }
    }
}

/// The attack of a card in a round. It is wider than power: it holds the
/// product of a power and a number of pillz.
#[derive(Clone, Copy, Debug)]
pub struct AttackStat {
    pub attr: CardAttr,
    pub value: u16,
}

impl Default for AttackStat {
    fn default() -> (stat: Self)
        ensures
            stat == (AttackStat { attr: CardAttr { cancelled: 0, protected: 0 }, value: 0 }),
    {
        AttackStat { attr: CardAttr::default(), value: 0 }
    }
}

/// A card in a hand, for the length of a match.
#[derive(Clone, Copy, Debug)]
pub struct Card {
    pub played: bool,
    pub won: bool,
    pub index: usize,
    pub id: u32,
    pub level: u8,
    pub power: CardStat,
    pub damage: CardStat,
    pub ability_id: u32,
    pub ability: CardAttr,
    pub bonus_id: u32,
    pub bonus: CardAttr,
    pub attack: AttackStat,
    pub life: CardAttr,
    pub pillz: CardAttr,
}

impl BaseCard {
    /// The catalog entry for a card of the card data: the same card, with its
    /// rarity read from its code, the year taken from its release date, and
    /// the clan references in its ability text replaced by clan tags.
    pub fn from_data(data: &CardData) -> (card: BaseCard)
        ensures
            card == (BaseCard {
                id: data.id,
                name: data.name,
                clan: data.clan,
                level: data.level,
                level_max: data.level_max,
                power: data.power,
                damage: data.damage,
                rarity: Rarity::spec_from(data.rarity@),
                ability_id: data.ability_id,
                ability: card.ability,
                bonus_id: data.bonus_id,
                bonus: data.bonus,
                year: spec_year_of(data.release_date),
            }),
            card.ability@ == spec_tagged_text(data.ability@),
    {
        BaseCard {
            id: data.id,
            name: data.name.clone(),
            clan: data.clan,
            level: data.level,
            level_max: data.level_max,
            power: data.power,
            damage: data.damage,
            rarity: Rarity::from(&data.rarity),
            ability_id: data.ability_id,
            ability: replace_clan_references(data.ability.as_str()),
            bonus_id: data.bonus_id,
            bonus: data.bonus.clone(),
            year: data.year(),
        }
    }

    /// The catalog's card with identifier `id`, if it has one.
    pub fn get_id(catalog: &Catalog, id: u32) -> (card: Option<&BaseCard>)
        ensures
            card.is_some() == catalog.has_card(id),
            card matches Some(c) ==> *c == catalog.card(id),
    {
        catalog.lookup_card(id)
    }

    /// The catalog's card whose name is `name`, letter case aside, if it has
    /// one; its last one where several share the name.
    pub fn get_name<'a>(catalog: &'a Catalog, name: &str) -> (card: Option<&'a BaseCard>)
        ensures
            card.is_some() == catalog.has_name(name@),
            card matches Some(c) ==> *c == catalog.card_named(name@),
    {
        catalog.lookup_card_by_name(name)
    }

    /// The card as it enters a hand at position `index`.
    pub fn to_card(&self, index: usize) -> (card: Card)
        ensures
            card == Card::spec_from(*self, index),
    {
        Card::from(self, index)
    }
}

impl Card {
    /// A fresh card at position `index` of a hand: unplayed, with the base
    /// card's level, power, damage, ability and bonus, and nothing cancelled
    /// or protected.
    pub open spec fn spec_from(data: BaseCard, index: usize) -> Card {
        let clear = CardAttr { cancelled: 0, protected: 0 };
        Card {
            played: false,
            won: false,
            index,
            id: data.id,
            level: data.level,
            power: CardStat { attr: clear, base: data.power, value: data.power },
            damage: CardStat { attr: clear, base: data.damage, value: data.damage },
            ability_id: data.ability_id,
            ability: clear,
            bonus_id: data.bonus_id,
            bonus: clear,
            attack: AttackStat { attr: clear, value: 0 },
            life: clear,
            pillz: clear,
        }
    }

    /// Whether the catalog has the card and what its ability and bonus refer
    /// to.
    pub open spec fn known(self, catalog: Catalog) -> bool {
        &&& catalog.has_card(self.id)
        &&& catalog.has_ability(self.ability_id)
        &&& catalog.has_ability(self.bonus_id)
    }

    /// The card's clan, as the catalog has it.
    pub open spec fn spec_clan(self, catalog: Catalog) -> Clan {
        catalog.card(self.id).clan
    }

    /// The attribute that stands for `stat` on the card.
    pub open spec fn spec_attr(self, stat: Stat) -> CardAttr {
        match stat {
            Stat::Power => self.power.attr,
            Stat::Damage => self.damage.attr,
            Stat::Attack => self.attack.attr,
            Stat::Life => self.life,
            Stat::Pillz => self.pillz,
        }
    }

    /// The attribute that a cancel of `what` counts on.
    pub open spec fn spec_cancel_attr(self, what: Cancel) -> CardAttr {
        match what {
            Cancel::Power => self.power.attr,
            Cancel::Damage => self.damage.attr,
            Cancel::Attack => self.attack.attr,
            Cancel::Ability => self.ability,
            Cancel::Bonus => self.bonus,
            Cancel::Pillz => self.pillz,
            Cancel::Life => self.life,
        }
    }

    /// The card with the attribute that a cancel of `what` counts on replaced.
    pub open spec fn spec_with_cancel_attr(self, what: Cancel, attr: CardAttr) -> Card {
        match what {
            Cancel::Power => Card { power: CardStat { attr, ..self.power }, ..self },
            Cancel::Damage => Card { damage: CardStat { attr, ..self.damage }, ..self },
            Cancel::Attack => Card { attack: AttackStat { attr, ..self.attack }, ..self },
            Cancel::Ability => Card { ability: attr, ..self },
            Cancel::Bonus => Card { bonus: attr, ..self },
            Cancel::Pillz => Card { pillz: attr, ..self },
            Cancel::Life => Card { life: attr, ..self },
        }
    }

    /// The card with one more protection of `what`.
    pub open spec fn spec_protected(self, what: Protect) -> Card {
        match what {
            Protect::Power => Card {
                power: CardStat { attr: self.power.attr.spec_protect(), ..self.power },
                ..self
            },
            Protect::Damage => Card {
                damage: CardStat { attr: self.damage.attr.spec_protect(), ..self.damage },
                ..self
            },
            Protect::Attack => Card {
                attack: AttackStat { attr: self.attack.attr.spec_protect(), ..self.attack },
                ..self
            },
            Protect::Ability => Card { ability: self.ability.spec_protect(), ..self },
            Protect::Bonus => Card { bonus: self.bonus.spec_protect(), ..self },
        }
    }

    /// The attribute that stands for `stat` on the card.
    pub fn attr(&self, stat: Stat) -> (attr: CardAttr)
        ensures
            attr == self.spec_attr(stat),
    {
        match stat {
            Stat::Power => self.power.attr,
            Stat::Damage => self.damage.attr,
            Stat::Attack => self.attack.attr,
            Stat::Life => self.life,
            Stat::Pillz => self.pillz,
        }
    }

    /// The attribute that a cancel of `what` counts on.
    pub fn cancel_attr(&self, what: Cancel) -> (attr: CardAttr)
        ensures
            attr == self.spec_cancel_attr(what),
    {
        match what {
            Cancel::Power => self.power.attr,
            Cancel::Damage => self.damage.attr,
            Cancel::Attack => self.attack.attr,
            Cancel::Ability => self.ability,
            Cancel::Bonus => self.bonus,
            Cancel::Pillz => self.pillz,
            Cancel::Life => self.life,
        }
    }

    /// Replaces the attribute that a cancel of `what` counts on.
    pub fn set_cancel_attr(&mut self, what: Cancel, attr: CardAttr)
        ensures
            *final(self) == old(self).spec_with_cancel_attr(what, attr),
    {
        match what {
            Cancel::Power => self.power.attr = attr,
            Cancel::Damage => self.damage.attr = attr,
            Cancel::Attack => self.attack.attr = attr,
            Cancel::Ability => self.ability = attr,
            Cancel::Bonus => self.bonus = attr,
            Cancel::Pillz => self.pillz = attr,
            Cancel::Life => self.life = attr,
        }
    }

    /// Counts one more protection of `what`.
    pub fn protect(&mut self, what: Protect)
        ensures
            *final(self) == old(self).spec_protected(what),
    {
        match what {
            Protect::Power => self.power.attr.protect(),
            Protect::Damage => self.damage.attr.protect(),
            Protect::Attack => self.attack.attr.protect(),
            Protect::Ability => self.ability.protect(),
            Protect::Bonus => self.bonus.protect(),
        }
    }

    /// The catalog entry of the card.
    pub fn base<'a>(&self, catalog: &'a Catalog) -> (base: &'a BaseCard)
        requires
            catalog.has_card(self.id),
        ensures
            *base == catalog.card(self.id),
    {
        catalog.lookup_card(self.id).unwrap()
    }

    /// The card's name.
    pub fn name<'a>(&self, catalog: &'a Catalog) -> (name: &'a String)
        requires
            catalog.has_card(self.id),
        ensures
            *name == catalog.card(self.id).name,
    {
        &self.base(catalog).name
    }

    /// The card's clan.
    pub fn clan(&self, catalog: &Catalog) -> (clan: Clan)
        requires
            catalog.has_card(self.id),
        ensures
            clan == self.spec_clan(*catalog),
    {
        self.base(catalog).clan
    }

    /// The highest level the card can reach.
    pub fn level_max(&self, catalog: &Catalog) -> (level: u8)
        requires
            catalog.has_card(self.id),
        ensures
            level == catalog.card(self.id).level_max,
    {
        self.base(catalog).level_max
    }

    /// The year the card came out.
    pub fn year(&self, catalog: &Catalog) -> (year: u32)
        requires
            catalog.has_card(self.id),
        ensures
            year == catalog.card(self.id).year,
    {
        self.base(catalog).year
    }

    /// A fresh card at position `index` of a hand.
    pub fn from(data: &BaseCard, index: usize) -> (card: Self)
        ensures
            card == Card::spec_from(*data, index),
    {
        Card {
            played: false,
            won: false,
            index,
            id: data.id,
            level: data.level,
            ability_id: data.ability_id,
            ability: CardAttr::default(),
            bonus_id: data.bonus_id,
            bonus: CardAttr::default(),
            power: CardStat::new(data.power),
            damage: CardStat::new(data.damage),
            attack: AttackStat::default(),
            life: CardAttr::default(),
            pillz: CardAttr::default(),
        }
    }

    /// A fresh copy of the card's ability, as the catalog defines it.
    pub fn get_ability(&self, catalog: &Catalog) -> (ability: Ability)
        requires
            catalog.has_ability(self.ability_id),
        ensures
            ability == catalog.ability(self.ability_id),
    {
        catalog.lookup_ability(self.ability_id).unwrap()
    }

    /// A fresh copy of the card's bonus, as the catalog defines it.
    pub fn get_bonus(&self, catalog: &Catalog) -> (bonus: Ability)
        requires
            catalog.has_ability(self.bonus_id),
        ensures
            bonus == catalog.ability(self.bonus_id),
    {
        catalog.lookup_ability(self.bonus_id).unwrap()
    }
}

/// Four cards, how many cards of the hand share each card's clan, and the
/// clan that the hand's wildcard card stands for.
#[derive(Debug, Clone, Copy)]
pub struct Hand {
    pub cards: [Card; 4],
    pub clan_count: [u8; 4],
    pub oculus_clan: Clan,
}

impl Hand {
    /// Each card knows its position in the hand.
    pub open spec fn placed(self) -> bool {
        forall|i: int| 0 <= i < 4 ==> (#[trigger] self.cards[i]).index == i
    }

    /// No card of the hand was played, and none has won.
    pub open spec fn fresh(self) -> bool {
        forall|i: int| 0 <= i < 4 ==> !(#[trigger] self.cards[i]).played && !self.cards[i].won
    }

    /// Only cards that were played have won.
    pub open spec fn won_in_play(self) -> bool {
        forall|i: int| 0 <= i < 4 ==> (#[trigger] self.cards[i]).won ==> self.cards[i].played
    }

    /// Each card is known to the catalog.
    pub open spec fn known(self, catalog: Catalog) -> bool {
        forall|i: int| 0 <= i < 4 ==> (#[trigger] self.cards[i]).known(catalog)
    }

    /// The hand with the card at position `i` replaced.
    pub open spec fn with_card(self, i: int, card: Card) -> Hand {
        Hand { cards: vstd::array::spec_array_update(self.cards, i, card), ..self }
    }

    /// How many cards of the hand share the clan of the card at `index`.
    pub fn card_clan_count(&self, index: usize) -> (count: u8)
        requires
            index < 4,
        ensures
            count == self.clan_count[index as int],
    {
        self.clan_count[index]
    }

    /// The counts, the wildcard's clan and the cards that `clan_counts` gives
    /// for four cards.
    pub open spec fn spec_clan_counts(cards: Seq<Card>, catalog: Catalog) -> Synergy {
        let clans = spec_resolved_clans(spec_raw_clans(cards, catalog), spec_firsts(cards));
        let counts = Seq::new(4, |i: int| spec_tally(clans, spec_firsts(cards), clans[i]) as u8);
        Synergy {
            cards: Seq::new(4, |i: int| spec_counted(cards[i], counts[i])),
            counts,
            oculus_clan: clans[spec_wildcard_index(spec_raw_clans(cards, catalog))],
        }
    }

    /// Counts, for each of four cards, the different cards of the hand that
    /// are of its clan, and takes the bonus from every card that is alone in
    /// its clan.
    ///
    /// Cards with one identifier are one card for the count. A single card of
    /// the wildcard clan takes the clan of its neighbour where the hand holds
    /// one other clan, and where it holds two others, one twice and one once,
    /// the clan that occurs once. The second result is the clan of the last
    /// wildcard card after this, or of the first card where there is no
    /// wildcard card.
    pub fn clan_counts(cards: &mut [Card; 4], catalog: &Catalog) -> (result: ([u8; 4], Clan))
        requires
            forall|i: int| 0 <= i < 4 ==> catalog.has_card((#[trigger] old(cards)[i]).id),
        ensures
            final(cards)@ == Hand::spec_clan_counts(old(cards)@, *catalog).cards,
            result.0@ == Hand::spec_clan_counts(old(cards)@, *catalog).counts,
            result.1 == Hand::spec_clan_counts(old(cards)@, *catalog).oculus_clan,
    {
        let raw: [Clan; 4] = [
            cards[0].clan(catalog),
            cards[1].clan(catalog),
            cards[2].clan(catalog),
            cards[3].clan(catalog),
        ];
        let firsts: [bool; 4] = [
            true,
            cards[1].id != cards[0].id,
            cards[2].id != cards[0].id && cards[2].id != cards[1].id,
            cards[3].id != cards[0].id && cards[3].id != cards[1].id && cards[3].id != cards[2].id,
        ];
        assert(raw@ =~= spec_raw_clans(old(cards)@, *catalog));
        assert(firsts@ =~= spec_firsts(old(cards)@));
        let (clans, at) = resolve_clans(&raw, &firsts);
        let counts = count_clans(&clans, &firsts);
        *cards = [
            counted(cards[0], counts[0]),
            counted(cards[1], counts[1]),
            counted(cards[2], counts[2]),
            counted(cards[3], counts[3]),
        ];
        assert(cards@ =~= Hand::spec_clan_counts(old(cards)@, *catalog).cards);
        (counts, clans[at])
    }

    /// The position of the hand's leader: of its card of the leader clan,
    /// where it has exactly one.
    pub open spec fn spec_leader(self, catalog: Catalog) -> Option<int> {
        let raw = spec_raw_clans(self.cards@, catalog);
        if spec_tally(raw, spec_all(), Clan::Leader) != 1 {
            None
        } else if raw[0] == Clan::Leader {
            Some(0)
        } else if raw[1] == Clan::Leader {
            Some(1)
        } else if raw[2] == Clan::Leader {
            Some(2)
        } else {
            Some(3)
        }
    }

    /// The hand's leader: its card of the leader clan, where it has exactly
    /// one.
    pub fn get_leader(&self, catalog: &Catalog) -> (leader: Option<&Card>)
        requires
            self.known(*catalog),
        ensures
            leader.is_some() == self.spec_leader(*catalog).is_some(),
            leader matches Some(card) ==> *card == self.cards[self.spec_leader(*catalog).unwrap()],
    {
        let l0 = self.cards[0].clan(catalog) == Clan::Leader;
        let l1 = self.cards[1].clan(catalog) == Clan::Leader;
        let l2 = self.cards[2].clan(catalog) == Clan::Leader;
        let l3 = self.cards[3].clan(catalog) == Clan::Leader;
        if l0 {
            if l1 || l2 || l3 {
                return None;
            }
            return Some(&self.cards[0]);
        } else if l1 {
            if l2 || l3 {
                return None;
            }
            return Some(&self.cards[1]);
        } else if l2 {
            if l3 {
                return None;
            }
            return Some(&self.cards[2]);
        } else if l3 {
            return Some(&self.cards[3]);
        }
        None
    }

    /// Whether the hand is that of four cards of the clan that stand at four
    /// different places of the catalog.
    pub open spec fn is_drawn_of(self, clan: Clan, catalog: Catalog) -> bool {
        exists|positions: Seq<usize>|
            {
                &&& positions.len() == 4
                &&& forall|i: int|
                    0 <= i < 4 ==> (#[trigger] positions[i]) < catalog.cards().len()
                        && catalog.cards()[positions[i] as int].clan == clan
                &&& forall|i: int, j: int|
                    0 <= i < j < 4 ==> #[trigger] positions[i] != #[trigger] positions[j]
                &&& self.is_from(
                    Seq::new(4, |i: int| catalog.cards()[positions[i] as int]),
                    catalog,
                )
            }
    }

    /// Whether the hand is that of four catalog cards, in order: its cards are
    /// fresh cards of these, its counts and its wildcard clan are those that
    /// `clan_counts` gives for them, and the cards that are alone in their
    /// clan have lost their bonus.
    pub open spec fn is_from(self, cards: Seq<BaseCard>, catalog: Catalog) -> bool {
        let fresh = Seq::new(4, |i: int| Card::spec_from(cards[i], i as usize));
        let synergy = Hand::spec_clan_counts(fresh, catalog);
        &&& self.cards@ == synergy.cards
        &&& self.clan_count@ == synergy.counts
        &&& self.oculus_clan == synergy.oculus_clan
    }

    /// The hand of the catalog cards with the four identifiers, in order;
    /// none unless the catalog has each of them, the abilities and bonuses
    /// they refer to and the empty ability 0.
    pub fn from_ids(catalog: &Catalog, i1: u32, i2: u32, i3: u32, i4: u32) -> (hand: Option<Hand>)
        ensures
            hand.is_some() == (catalog.supports(i1) && catalog.supports(i2) && catalog.supports(i3)
                && catalog.supports(i4)),
            hand matches Some(h) ==> h.is_from(
                seq![catalog.card(i1), catalog.card(i2), catalog.card(i3), catalog.card(i4)],
                *catalog,
            ) && h.placed() && h.known(*catalog) && h.fresh(),
    {
        let c1 = match catalog.lookup_card(i1) {
            Some(card) if catalog.is_supported(card) => card,
            _ => {
                return None;
            },
        };
        let c2 = match catalog.lookup_card(i2) {
            Some(card) if catalog.is_supported(card) => card,
            _ => {
                return None;
            },
        };
        let c3 = match catalog.lookup_card(i3) {
            Some(card) if catalog.is_supported(card) => card,
            _ => {
                return None;
            },
        };
        let c4 = match catalog.lookup_card(i4) {
            Some(card) if catalog.is_supported(card) => card,
            _ => {
                return None;
            },
        };
        Some(Hand::from_cards(catalog, c1, c2, c3, c4))
    }

    /// The hand of the catalog cards with the four names, letter case aside,
    /// in order; none unless the catalog has each of them, the abilities and
    /// bonuses they refer to and the empty ability 0.
    pub fn from_names(catalog: &Catalog, c1: &str, c2: &str, c3: &str, c4: &str) -> (hand: Option<Hand>)
        ensures
            hand.is_some() == (catalog.supports_name(c1@) && catalog.supports_name(c2@)
                && catalog.supports_name(c3@) && catalog.supports_name(c4@)),
            hand matches Some(h) ==> h.is_from(
                seq![
                    catalog.card_named(c1@),
                    catalog.card_named(c2@),
                    catalog.card_named(c3@),
                    catalog.card_named(c4@),
                ],
                *catalog,
            ) && h.placed() && h.known(*catalog) && h.fresh(),
    {
        let b1 = match catalog.lookup_card_by_name(c1) {
            Some(card) if catalog.is_supported(card) => card,
            _ => {
                return None;
            },
        };
        let b2 = match catalog.lookup_card_by_name(c2) {
            Some(card) if catalog.is_supported(card) => card,
            _ => {
                return None;
            },
        };
        let b3 = match catalog.lookup_card_by_name(c3) {
            Some(card) if catalog.is_supported(card) => card,
            _ => {
                return None;
            },
        };
        let b4 = match catalog.lookup_card_by_name(c4) {
            Some(card) if catalog.is_supported(card) => card,
            _ => {
                return None;
            },
        };
        Some(Hand::from_cards(catalog, b1, b2, b3, b4))
    }

    /// The hand of the catalog cards at four positions of the catalog, in
    /// order; none unless there are four positions, each is one of the
    /// catalog and the catalog supports each card.
    pub fn from_positions(catalog: &Catalog, positions: &Vec<usize>) -> (hand: Option<Hand>)
        ensures
            hand.is_some() == (positions.len() == 4 && forall|i: int|
                0 <= i < 4 ==> (#[trigger] positions[i]) < catalog.cards().len()
                    && catalog.supports_card(catalog.cards()[positions[i] as int])),
            hand matches Some(h) ==> h.is_from(
                Seq::new(4, |i: int| catalog.cards()[positions[i] as int]),
                *catalog,
            ) && h.placed() && h.known(*catalog) && h.fresh(),
    {
        if positions.len() != 4 {
            return None;
        }
        let n = catalog.len();
        if positions[0] >= n || positions[1] >= n || positions[2] >= n || positions[3] >= n {
            return None;
        }
        let c1 = catalog.card_at(positions[0]);
        let c2 = catalog.card_at(positions[1]);
        let c3 = catalog.card_at(positions[2]);
        let c4 = catalog.card_at(positions[3]);
        if !catalog.is_supported(c1) || !catalog.is_supported(c2) || !catalog.is_supported(c3)
            || !catalog.is_supported(c4) {
            return None;
        }
        assert(seq![*c1, *c2, *c3, *c4] =~= Seq::new(
            4,
            |i: int| catalog.cards()[positions[i] as int],
        ));
        Some(Hand::from_cards(catalog, c1, c2, c3, c4))
    }

    /// A hand of four different cards of the clan, picked at random from the
    /// catalog; none where the catalog has fewer than four cards of the clan
    /// or does not support one that was picked.
    pub fn random_hand_clan(catalog: &Catalog, clan: Clan) -> (hand: Option<Hand>)
        ensures
            spec_of_clan(catalog.cards(), clan, catalog.cards().len() as int).len() < 4
                ==> hand.is_none(),
            spec_can_fill(*catalog, clan) ==> hand.is_some(),
            hand matches Some(h) ==> h.placed() && h.known(*catalog) && h.fresh() && h.is_drawn_of(
                clan,
                *catalog,
            ),
    {
        let mut candidates: Vec<usize> = Vec::new();
        let n = catalog.len();
        let mut i: usize = 0;
        while i < n
            invariant
                i <= n,
                n == catalog.cards().len(),
                candidates@ == spec_of_clan(catalog.cards(), clan, i as int),
            decreases n - i,
        {
            if catalog.card_at(i).clan == clan {
                candidates.push(i);
            }
            i += 1;
        }
        let chosen = choose_four(&candidates);
        let hand = Hand::from_positions(catalog, &chosen);
        proof {
            let places = choose|places: Seq<int>|
                places.len() == chosen@.len() && places.no_duplicates() && forall|i: int|
                    0 <= i < places.len() ==> 0 <= #[trigger] places[i] < candidates@.len()
                        && chosen@[i] == candidates@[places[i]];
            if spec_can_fill(*catalog, clan) {
                assert forall|i: int| 0 <= i < 4 implies (#[trigger] chosen@[i])
                    < catalog.cards().len() && catalog.supports_card(
                    catalog.cards()[chosen@[i] as int],
                ) by {
                    lemma_of_clan(catalog.cards(), clan, n as int, places[i], places[i]);
                }
            }
            if hand.is_some() {
                let places = choose|places: Seq<int>|
                    places.len() == chosen@.len() && places.no_duplicates() && forall|i: int|
                        0 <= i < places.len() ==> 0 <= #[trigger] places[i] < candidates@.len()
                            && chosen@[i] == candidates@[places[i]];
                assert forall|i: int| 0 <= i < 4 implies (#[trigger] chosen@[i])
                    < catalog.cards().len() && catalog.cards()[chosen@[i] as int].clan == clan by {
                    lemma_of_clan(catalog.cards(), clan, n as int, places[i], places[i]);
                }
                assert forall|i: int, j: int| 0 <= i < j < 4 implies #[trigger] chosen@[i]
                    != #[trigger] chosen@[j] by {
                    assert(places[i] != places[j]);
                    if places[i] < places[j] {
                        lemma_of_clan(catalog.cards(), clan, n as int, places[i], places[j]);
                    } else {
                        lemma_of_clan(catalog.cards(), clan, n as int, places[j], places[i]);
                    }
                }
            }
        }
        hand
    }

    /// The hand of four cards that the catalog supports, in order.
    pub fn from_cards(
        catalog: &Catalog,
        c1: &BaseCard,
        c2: &BaseCard,
        c3: &BaseCard,
        c4: &BaseCard,
    ) -> (hand: Hand)
        requires
            catalog.supports_card(*c1),
            catalog.supports_card(*c2),
            catalog.supports_card(*c3),
            catalog.supports_card(*c4),
        ensures
            hand.is_from(seq![*c1, *c2, *c3, *c4], *catalog),
            hand.placed(),
            hand.known(*catalog),
            hand.fresh(),
    {
        let mut cards = [c1.to_card(0), c2.to_card(1), c3.to_card(2), c4.to_card(3)];
        let ghost fresh = Seq::new(
            4,
            |i: int| Card::spec_from(seq![*c1, *c2, *c3, *c4][i], i as usize),
        );
        assert(cards@ =~= fresh);
        let (clan_count, oculus_clan) = Hand::clan_counts(&mut cards, catalog);
        let hand = Hand { cards, clan_count, oculus_clan };
        hand
    }
}

/// The positions among the first `n` cards at which a card of the clan
/// stands, in order.
pub open spec fn spec_of_clan(cards: Seq<BaseCard>, clan: Clan, n: int) -> Seq<usize>
    decreases n,
{
    if n <= 0 {
        Seq::empty()
    } else if cards[n - 1].clan == clan {
        spec_of_clan(cards, clan, n - 1).push((n - 1) as usize)
    } else {
        spec_of_clan(cards, clan, n - 1)
    }
}

/// Whether the catalog has four cards of the clan and supports each card of
/// the clan that it has.
pub open spec fn spec_can_fill(catalog: Catalog, clan: Clan) -> bool {
    &&& spec_of_clan(catalog.cards(), clan, catalog.cards().len() as int).len() >= 4
    &&& forall|p: int|
        0 <= p < catalog.cards().len() && (#[trigger] catalog.cards()[p]).clan == clan
            ==> catalog.supports_card(catalog.cards()[p])
}

/// The positions of the cards of a clan are positions of such cards, and
/// they go up.
pub proof fn lemma_of_clan(cards: Seq<BaseCard>, clan: Clan, n: int, i: int, j: int)
    requires
        0 <= n <= cards.len(),
        n <= usize::MAX,
        0 <= i <= j < spec_of_clan(cards, clan, n).len(),
    ensures
        spec_of_clan(cards, clan, n)[i] < n,
        cards[spec_of_clan(cards, clan, n)[i] as int].clan == clan,
        i < j ==> spec_of_clan(cards, clan, n)[i] < spec_of_clan(cards, clan, n)[j],
    decreases n,
{
    if n > 0 {
        let before = spec_of_clan(cards, clan, n - 1);
        if j < before.len() {
            lemma_of_clan(cards, clan, n - 1, i, j);
        } else if i < before.len() {
            lemma_of_clan(cards, clan, n - 1, i, i);
        }
    }
}

/// `SliceRandom::choose_multiple` of rand with the thread's generator: up to
/// four of the candidates, from different places and in any order; all of
/// them where there are fewer than four.
#[verifier::external_body]
fn choose_four(candidates: &Vec<usize>) -> (chosen: Vec<usize>)
    ensures
        chosen@.len() == if candidates@.len() < 4 {
            candidates@.len()
        } else {
            4
        },
        exists|places: Seq<int>|
            places.len() == chosen@.len() && places.no_duplicates() && forall|i: int|
                0 <= i < places.len() ==> 0 <= #[trigger] places[i] < candidates@.len()
                    && chosen@[i] == candidates@[places[i]],
{
    candidates.choose_multiple(&mut rand::thread_rng(), 4).cloned().collect()
}

/// What `clan_counts` gives: the cards, of which those alone in their clan
/// have lost their bonus, each card's count, and the clan that the wildcard
/// stands for.
pub struct Synergy {
    pub cards: Seq<Card>,
    pub counts: Seq<u8>,
    pub oculus_clan: Clan,
}

/// Counting again changes nothing: the cards that `clan_counts` hands back
/// get the same counts and the same wildcard clan from it, and stay as they
/// are.
pub proof fn lemma_clan_counts_idempotent(cards: Seq<Card>, catalog: Catalog)
    requires
        cards.len() == 4,
    ensures
        Hand::spec_clan_counts(Hand::spec_clan_counts(cards, catalog).cards, catalog).counts
            == Hand::spec_clan_counts(cards, catalog).counts,
        Hand::spec_clan_counts(Hand::spec_clan_counts(cards, catalog).cards, catalog).oculus_clan
            == Hand::spec_clan_counts(cards, catalog).oculus_clan,
        Hand::spec_clan_counts(Hand::spec_clan_counts(cards, catalog).cards, catalog).cards
            == Hand::spec_clan_counts(cards, catalog).cards,
{
    let once = Hand::spec_clan_counts(cards, catalog);
    let twice = Hand::spec_clan_counts(once.cards, catalog);
    assert(spec_raw_clans(once.cards, catalog) =~= spec_raw_clans(cards, catalog));
    assert(spec_firsts(once.cards) =~= spec_firsts(cards));
    assert(twice.counts =~= once.counts);
    assert(twice.cards =~= once.cards);
}

/// The clans of four cards, as the catalog has them.
pub open spec fn spec_raw_clans(cards: Seq<Card>, catalog: Catalog) -> Seq<Clan> {
    Seq::new(4, |i: int| cards[i].spec_clan(catalog))
}

/// For each of four cards, whether no earlier one has its identifier.
pub open spec fn spec_firsts(cards: Seq<Card>) -> Seq<bool> {
    seq![
        true,
        cards[1].id != cards[0].id,
        cards[2].id != cards[0].id && cards[2].id != cards[1].id,
        cards[3].id != cards[0].id && cards[3].id != cards[1].id && cards[3].id != cards[2].id,
    ]
}

/// Four times yes.
pub open spec fn spec_all() -> Seq<bool> {
    seq![true, true, true, true]
}

/// One if the card at `i` is taken by the mask and of the clan, else zero.
pub open spec fn spec_hit(clans: Seq<Clan>, mask: Seq<bool>, clan: Clan, i: int) -> int {
    if mask[i] && clans[i] == clan {
        1
    } else {
        0
    }
}

/// How many of the four cards that the mask takes are of the clan.
pub open spec fn spec_tally(clans: Seq<Clan>, mask: Seq<bool>, clan: Clan) -> int {
    spec_hit(clans, mask, clan, 0) + spec_hit(clans, mask, clan, 1) + spec_hit(clans, mask, clan, 2)
        + spec_hit(clans, mask, clan, 3)
}

/// Whether the card at `i` is taken by the mask and no earlier card that the
/// mask takes is of its clan.
pub open spec fn spec_opens(clans: Seq<Clan>, mask: Seq<bool>, i: int) -> bool {
    &&& mask[i]
    &&& (i < 1 || !(mask[0] && clans[0] == clans[i]))
    &&& (i < 2 || !(mask[1] && clans[1] == clans[i]))
    &&& (i < 3 || !(mask[2] && clans[2] == clans[i]))
}

/// How many clans the cards that the mask takes are of.
pub open spec fn spec_groups(clans: Seq<Clan>, mask: Seq<bool>) -> int {
    (if spec_opens(clans, mask, 0) {
        1int
    } else {
        0
    }) + (if spec_opens(clans, mask, 1) {
        1int
    } else {
        0
    }) + (if spec_opens(clans, mask, 2) {
        1int
    } else {
        0
    }) + (if spec_opens(clans, mask, 3) {
        1int
    } else {
        0
    })
}

/// Whether the card at `i` is taken by the mask and its clan occurs `times`
/// times among the cards that the mask takes.
pub open spec fn spec_occurs(clans: Seq<Clan>, mask: Seq<bool>, i: int, times: int) -> bool {
    mask[i] && spec_tally(clans, mask, clans[i]) == times
}

/// Whether some clan occurs twice among the cards that the mask takes.
pub open spec fn spec_has_pair(clans: Seq<Clan>, mask: Seq<bool>) -> bool {
    spec_occurs(clans, mask, 0, 2) || spec_occurs(clans, mask, 1, 2) || spec_occurs(clans, mask, 2, 2)
        || spec_occurs(clans, mask, 3, 2)
}

/// Whether the card at `i` is the only one of its clan among the cards that
/// the mask takes, and not a wildcard card.
pub open spec fn spec_is_solo(clans: Seq<Clan>, mask: Seq<bool>, i: int) -> bool {
    clans[i] != Clan::Oculus && spec_occurs(clans, mask, i, 1)
}

/// The clan of the first card that is the only one of its clan and not a
/// wildcard card, if there is one.
pub open spec fn spec_solo_clan(clans: Seq<Clan>, mask: Seq<bool>) -> Clan {
    if spec_is_solo(clans, mask, 0) {
        clans[0]
    } else if spec_is_solo(clans, mask, 1) {
        clans[1]
    } else if spec_is_solo(clans, mask, 2) {
        clans[2]
    } else if spec_is_solo(clans, mask, 3) {
        clans[3]
    } else {
        Clan::NoClan
    }
}

/// The position of the last wildcard card, or 0 where there is none.
pub open spec fn spec_wildcard_index(raw: Seq<Clan>) -> int {
    if raw[3] == Clan::Oculus {
        3
    } else if raw[2] == Clan::Oculus {
        2
    } else if raw[1] == Clan::Oculus {
        1
    } else {
        0
    }
}

/// The clans under which four cards are counted: their own, but for a single
/// wildcard card, which takes the clan of its neighbour where the different
/// cards of the hand are of two clans and, where they are of three and one of
/// them occurs twice, the clan that occurs once.
#[verifier::opaque]
pub open spec fn spec_resolved_clans(raw: Seq<Clan>, firsts: Seq<bool>) -> Seq<Clan> {
    let at = spec_wildcard_index(raw);
    if spec_tally(raw, spec_all(), Clan::Oculus) != 1 {
        raw
    } else if spec_groups(raw, firsts) == 2 {
        raw.update(
            at,
            if at == 0 {
                raw[1]
            } else {
                raw[0]
            },
        )
    } else if spec_groups(raw, firsts) == 3 && spec_has_pair(raw, firsts) {
        raw.update(at, spec_solo_clan(raw, firsts))
    } else {
        raw
    }
}

/// A card that is one of `count` of its clan: without its bonus where it is
/// alone.
pub open spec fn spec_counted(card: Card, count: u8) -> Card {
    if count == 1 {
        Card { bonus_id: 0, ..card }
    } else {
        card
    }
}

fn counted(card: Card, count: u8) -> (result: Card)
    ensures
        result == spec_counted(card, count),
{
    let mut card = card;
    if count == 1 {
        card.bonus_id = 0;
    }
    card
}

/// The clans under which four cards are counted, and the position of the last
/// wildcard card.
fn resolve_clans(raw: &[Clan; 4], firsts: &[bool; 4]) -> (result: ([Clan; 4], usize))
    ensures
        result.0@ == spec_resolved_clans(raw@, firsts@),
        result.1 == spec_wildcard_index(raw@),
{
    let all: [bool; 4] = [true, true, true, true];
    assert(all@ =~= spec_all());
    let wildcards = tally(raw, &all, Clan::Oculus);
    let at: usize = if raw[3] == Clan::Oculus {
        3
    } else if raw[2] == Clan::Oculus {
        2
    } else if raw[1] == Clan::Oculus {
        1
    } else {
        0
    };
    let mut clans: [Clan; 4] = [raw[0], raw[1], raw[2], raw[3]];
    assert(clans@ =~= raw@);
    if wildcards == 1 {
        let groups = count_groups(raw, firsts);
        if groups == 2 {
            clans[at] = if at == 0 {
                raw[1]
            } else {
                raw[0]
            };
        } else if groups == 3 {
            if has_pair(raw, firsts) {
                clans[at] = solo_clan(raw, firsts);
            }
        }
    }
    reveal(spec_resolved_clans);
    assert(clans@ =~= spec_resolved_clans(raw@, firsts@));
    (clans, at)
}

/// For each of four clans, how many of the cards that the mask takes are of
/// it.
fn count_clans(clans: &[Clan; 4], mask: &[bool; 4]) -> (counts: [u8; 4])
    ensures
        counts@ == Seq::new(4, |i: int| spec_tally(clans@, mask@, clans@[i]) as u8),
{
    let counts: [u8; 4] = [
        tally(clans, mask, clans[0]),
        tally(clans, mask, clans[1]),
        tally(clans, mask, clans[2]),
        tally(clans, mask, clans[3]),
    ];
    assert(counts@ =~= Seq::new(4, |i: int| spec_tally(clans@, mask@, clans@[i]) as u8));
    counts
}

fn hit(clans: &[Clan; 4], mask: &[bool; 4], clan: Clan, i: usize) -> (n: u8)
    requires
        i < 4,
    ensures
        n == spec_hit(clans@, mask@, clan, i as int),
        n <= 1,
{
    if mask[i] && clans[i] == clan {
        1
    } else {
        0
    }
}

fn tally(clans: &[Clan; 4], mask: &[bool; 4], clan: Clan) -> (n: u8)
    ensures
        n == spec_tally(clans@, mask@, clan),
{
    hit(clans, mask, clan, 0) + hit(clans, mask, clan, 1) + hit(clans, mask, clan, 2) + hit(
        clans,
        mask,
        clan,
        3,
    )
}

fn opens(clans: &[Clan; 4], mask: &[bool; 4], i: usize) -> (yes: bool)
    requires
        i < 4,
    ensures
        yes == spec_opens(clans@, mask@, i as int),
{
    mask[i] && (i < 1 || !(mask[0] && clans[0] == clans[i])) && (i < 2 || !(mask[1] && clans[1]
        == clans[i])) && (i < 3 || !(mask[2] && clans[2] == clans[i]))
}

fn count_groups(clans: &[Clan; 4], mask: &[bool; 4]) -> (n: u8)
    ensures
        n == spec_groups(clans@, mask@),
{
    let mut n: u8 = 0;
    if opens(clans, mask, 0) {
        n += 1;
    }
    if opens(clans, mask, 1) {
        n += 1;
    }
    if opens(clans, mask, 2) {
        n += 1;
    }
    if opens(clans, mask, 3) {
        n += 1;
    }
    n
}

fn occurs(clans: &[Clan; 4], mask: &[bool; 4], i: usize, times: u8) -> (yes: bool)
    requires
        i < 4,
    ensures
        yes == spec_occurs(clans@, mask@, i as int, times as int),
{
    mask[i] && tally(clans, mask, clans[i]) == times
}

fn has_pair(clans: &[Clan; 4], mask: &[bool; 4]) -> (yes: bool)
    ensures
        yes == spec_has_pair(clans@, mask@),
{
    occurs(clans, mask, 0, 2) || occurs(clans, mask, 1, 2) || occurs(clans, mask, 2, 2) || occurs(
        clans,
        mask,
        3,
        2,
    )
}

fn solo_clan(clans: &[Clan; 4], mask: &[bool; 4]) -> (clan: Clan)
    ensures
        clan == spec_solo_clan(clans@, mask@),
{
    if clans[0] != Clan::Oculus && occurs(clans, mask, 0, 1) {
        clans[0]
    } else if clans[1] != Clan::Oculus && occurs(clans, mask, 1, 1) {
        clans[1]
    } else if clans[2] != Clan::Oculus && occurs(clans, mask, 2, 1) {
        clans[2]
    } else if clans[3] != Clan::Oculus && occurs(clans, mask, 3, 1) {
        clans[3]
    } else {
        Clan::NoClan
    }
}

} // verus!
