use vstd::prelude::*;
use regex::Regex;
use tinyvec::ArrayVec;
use crate::battle::{spec_steady, BattleData};
use crate::catalog::Catalog;
use crate::game::RoundWin;
use crate::modifiers::{lemma_modifier_keeps_wf, EventTime, Modifier};
use crate::text::{
    ends_with, parse_u8, spec_ends_with, spec_starts_with, spec_unsigned, starts_with,
};
use crate::types::{str_eq, Clan, ClanSet};

verus! {

#[verifier::external_type_specification]
#[verifier::external_body]
#[verifier::reject_recursive_types(A)]
pub struct ExArrayVec<A>(ArrayVec<A>);

/// The slots in use of an ability's modifier list, in order.
pub uninterp spec fn modifier_slots(list: ArrayVec<[Option<Modifier>; 2]>) -> Seq<Option<Modifier>>;

/// The slots in use of an ability's condition list, in order.
pub uninterp spec fn condition_slots(list: ArrayVec<[Option<Condition>; 3]>) -> Seq<
    Option<Condition>,
>;

/// `ArrayVec::new` for a modifier list: a list with no slot in use.
#[verifier::external_body]
pub(crate) fn new_modifiers() -> (list: ArrayVec<[Option<Modifier>; 2]>)
    ensures
        modifier_slots(list) == Seq::<Option<Modifier>>::empty(),
{
    ArrayVec::new()
}

/// `ArrayVec::try_push` on a modifier list: with fewer than two slots in use
/// the item goes into the next one and nothing comes back; with both in use
/// the list stays as it is and the item comes back.
#[verifier::external_body]
pub(crate) fn try_push_modifier(
    list: &mut ArrayVec<[Option<Modifier>; 2]>,
    item: Option<Modifier>,
) -> (back: Option<Option<Modifier>>)
    ensures
        modifier_slots(*old(list)).len() < 2 ==> back.is_none() && modifier_slots(*final(list))
            == modifier_slots(*old(list)).push(item),
        modifier_slots(*old(list)).len() >= 2 ==> back == Some(item) && modifier_slots(*final(list))
            == modifier_slots(*old(list)),
{
    list.try_push(item)
}

/// `ArrayVec::len` on a modifier list: the number of slots in use.
#[verifier::external_body]
pub(crate) fn modifiers_len(list: &ArrayVec<[Option<Modifier>; 2]>) -> (n: usize)
    ensures
        n == modifier_slots(*list).len(),
{
    list.len()
}

/// Indexing a modifier list: the slot at `i`, which must be in use.
#[verifier::external_body]
pub(crate) fn modifier_at(list: &ArrayVec<[Option<Modifier>; 2]>, i: usize) -> (slot: Option<
    Modifier,
>)
    requires
        i < modifier_slots(*list).len(),
    ensures
        slot == modifier_slots(*list)[i as int],
{
    list[i]
}

/// Assigning through an index into a modifier list: the slot at `i`, which
/// must be in use, takes the new value and the others keep theirs.
#[verifier::external_body]
pub(crate) fn set_modifier(list: &mut ArrayVec<[Option<Modifier>; 2]>, i: usize, slot: Option<Modifier>)
    requires
        i < modifier_slots(*old(list)).len(),
    ensures
        modifier_slots(*final(list)) == modifier_slots(*old(list)).update(i as int, slot),
{
    list[i] = slot;
}

/// `ArrayVec::new` for a condition list: a list with no slot in use.
#[verifier::external_body]
pub(crate) fn new_conditions() -> (list: ArrayVec<[Option<Condition>; 3]>)
    ensures
        condition_slots(list) == Seq::<Option<Condition>>::empty(),
{
    ArrayVec::new()
}

/// `ArrayVec::try_push` on a condition list: with fewer than three slots in
/// use the item goes into the next one and nothing comes back; with all three
/// in use the list stays as it is and the item comes back.
#[verifier::external_body]
pub(crate) fn try_push_condition(
    list: &mut ArrayVec<[Option<Condition>; 3]>,
    item: Option<Condition>,
) -> (back: Option<Option<Condition>>)
    ensures
        condition_slots(*old(list)).len() < 3 ==> back.is_none() && condition_slots(*final(list))
            == condition_slots(*old(list)).push(item),
        condition_slots(*old(list)).len() >= 3 ==> back == Some(item) && condition_slots(
            *final(list),
        ) == condition_slots(*old(list)),
{
    list.try_push(item)
}

/// `ArrayVec::len` on a condition list: the number of slots in use.
#[verifier::external_body]
pub(crate) fn conditions_len(list: &ArrayVec<[Option<Condition>; 3]>) -> (n: usize)
    ensures
        n == condition_slots(*list).len(),
{
    list.len()
}

/// Indexing a condition list: the slot at `i`, which must be in use.
#[verifier::external_body]
pub(crate) fn condition_at(list: &ArrayVec<[Option<Condition>; 3]>, i: usize) -> (slot: Option<
    Condition,
>)
    requires
        i < condition_slots(*list).len(),
    ensures
        slot == condition_slots(*list)[i as int],
{
    list[i]
}

/// Where an ability comes from and how long it lasts.
#[derive(Clone, Copy, Debug, PartialEq, Eq, Structural)]
pub enum AbilityType {
    Global,
    Ability,
    Bonus,
    GlobalAbility,
    GlobalBonus,
}

/// A predicate on the state of a round that an ability may depend on.
#[derive(Debug, Clone, Copy, PartialEq)]
pub enum Condition {
    Courage,
    Defeat,
    Brawl,
    Growth,
    Confidence,
    Degrowth,
    VictoryOrDefeat,
    Equalizer,
    Support,
    Team,
    Symmetry,
    Revenge,
    Reprisal,
    Day,
    Night,
    Killshot,
    Backlash,
    Asymmetry,
    Reanimate,
    Stop,
    Infiltrate(ClanSet),
    Versus(ClanSet),
    Other,
}

/// An effect of a card: up to two modifiers under up to three conditions.
#[derive(Clone, Copy, Debug, PartialEq)]
pub struct Ability {
    pub ability_type: AbilityType,
    pub modifiers: ArrayVec<[Option<Modifier>; 2]>,
    pub conditions: ArrayVec<[Option<Condition>; 3]>,
    pub delayed: bool,
    pub won: bool,
    pub remove: bool,
}

/// An ability as a value: its two lists as sequences.
pub struct AbilityView {
    pub ability_type: AbilityType,
    pub modifiers: Seq<Option<Modifier>>,
    pub conditions: Seq<Option<Condition>>,
    pub delayed: bool,
    pub won: bool,
    pub remove: bool,
}

impl View for Ability {
    type V = AbilityView;

    open spec fn view(&self) -> AbilityView {
        AbilityView {
            ability_type: self.ability_type,
            modifiers: modifier_slots(self.modifiers),
            conditions: condition_slots(self.conditions),
            delayed: self.delayed,
            won: self.won,
            remove: self.remove,
        }
    }
}

impl AbilityView {
    /// Whether the ability has a first modifier, which gives it its checkpoint.
    pub open spec fn is_timed(self) -> bool {
        self.modifiers.len() > 0 && self.modifiers[0].is_some()
    }

    /// The checkpoint at which the ability fires: that of its first modifier.
    pub open spec fn event_time(self) -> EventTime {
        self.modifiers[0].unwrap().spec_event_time()
    }
}

impl Ability {
    /// An ability of the given kind with the given modifiers and conditions,
    /// not delayed, not yet triggered and not to be removed. There is none
    /// with more than two modifiers or more than three conditions.
    pub fn new(ability_type: AbilityType, modifiers: &Vec<Modifier>, conditions: &Vec<Condition>) -> (ability:
        Option<Ability>)
        ensures
            ability.is_some() == (modifiers.len() <= 2 && conditions.len() <= 3),
            ability matches Some(a) ==> a@ == (AbilityView {
                ability_type,
                modifiers: modifiers@.map_values(|m: Modifier| Some(m)),
                conditions: conditions@.map_values(|c: Condition| Some(c)),
                delayed: false,
                won: false,
                remove: false,
            }),
    {
        if modifiers.len() > 2 || conditions.len() > 3 {
            return None;
        }
        let mut ms = new_modifiers();
        let mut i: usize = 0;
        while i < modifiers.len()
            invariant
                i <= modifiers.len() <= 2,
                modifier_slots(ms) == modifiers@.subrange(0, i as int).map_values(|m: Modifier| Some(m)),
            decreases modifiers.len() - i,
        {
            let _ = try_push_modifier(&mut ms, Some(modifiers[i]));
            assert(modifier_slots(ms) =~= modifiers@.subrange(0, i as int + 1).map_values(
                |m: Modifier| Some(m),
            ));
            i += 1;
        }
        assert(modifiers@.subrange(0, i as int) =~= modifiers@);
        let mut cs = new_conditions();
        let mut k: usize = 0;
        while k < conditions.len()
            invariant
                k <= conditions.len() <= 3,
                condition_slots(cs) == conditions@.subrange(0, k as int).map_values(
                    |c: Condition| Some(c),
                ),
            decreases conditions.len() - k,
        {
            let _ = try_push_condition(&mut cs, Some(conditions[k]));
            assert(condition_slots(cs) =~= conditions@.subrange(0, k as int + 1).map_values(
                |c: Condition| Some(c),
            ));
            k += 1;
        }
        assert(conditions@.subrange(0, k as int) =~= conditions@);
        Some(
            Ability {
                ability_type,
                modifiers: ms,
                conditions: cs,
                delayed: false,
                won: false,
                remove: false,
            },
        )
    }

    /// The checkpoint at which the ability fires: that of its first modifier.
    pub fn event_time(&self) -> (time: EventTime)
        requires
            self@.is_timed(),
        ensures
            time == self@.event_time(),
    {
        modifier_at(&self.modifiers, 0).unwrap().event_time()
    }
}

/// The numbers of the clan references in a condition text, from left to
/// right: for each `[clan:` or `[Clan:`, digits and `]`, the digits.
pub uninterp spec fn spec_clan_numbers(text: Seq<char>) -> Seq<Seq<char>>;

/// `Regex::captures_iter` of regex with the pattern of a clan reference: the
/// first group of each match, from left to right. The pattern is valid, and
/// its one group takes part in every match.
#[verifier::external_body]
fn clan_numbers(text: &str) -> (numbers: Vec<String>)
    ensures
        numbers@.map_values(|n: String| n@) == spec_clan_numbers(text@),
{
    Regex::new(r"\[[Cc]lan:(\d+)\]").unwrap().captures_iter(text).map(|m| m[1].to_string()).collect()
}

/// The set of the clans with the first `n` of the numbers; none where one of
/// them is no number up to 255 or not the number of a clan.
pub open spec fn spec_clans_of(numbers: Seq<Seq<char>>, n: int) -> Option<ClanSet>
    decreases n,
{
    if n <= 0 {
        Some(ClanSet::spec_empty())
    } else {
        match (spec_clans_of(numbers, n - 1), spec_unsigned(numbers[n - 1], 255)) {
            (Some(set), Some(id)) => match Clan::spec_from_id(id as u8) {
                Some(clan) => Some(set.spec_with(clan)),
                None => None,
            },
            _ => None,
        }
    }
}

impl Condition {
    /// The condition with the given name. The two conditions that need a
    /// list of clans have none by their name alone; an unknown name stands
    /// for a condition that always holds.
    pub open spec fn spec_named(name: Seq<char>) -> Option<Condition> {
        if name == "Courage"@ {
            Some(Condition::Courage)
        } else if name == "Defeat"@ {
            Some(Condition::Defeat)
        } else if name == "Brawl"@ {
            Some(Condition::Brawl)
        } else if name == "Growth"@ {
            Some(Condition::Growth)
        } else if name == "Confidence"@ {
            Some(Condition::Confidence)
        } else if name == "Degrowth"@ {
            Some(Condition::Degrowth)
        } else if name == "Victory Or Defeat"@ {
            Some(Condition::VictoryOrDefeat)
        } else if name == "Equalizer"@ {
            Some(Condition::Equalizer)
        } else if name == "Support"@ {
            Some(Condition::Support)
        } else if name == "Team"@ {
            Some(Condition::Team)
        } else if name == "Symmetry"@ {
            Some(Condition::Symmetry)
        } else if name == "Revenge"@ {
            Some(Condition::Revenge)
        } else if name == "Reprisal"@ {
            Some(Condition::Reprisal)
        } else if name == "Day"@ {
            Some(Condition::Day)
        } else if name == "Night"@ {
            Some(Condition::Night)
        } else if name == "Killshot"@ {
            Some(Condition::Killshot)
        } else if name == "Backlash"@ {
            Some(Condition::Backlash)
        } else if name == "Asymmetry"@ {
            Some(Condition::Asymmetry)
        } else if name == "Reanimate"@ {
            Some(Condition::Reanimate)
        } else if name == "Stop"@ {
            Some(Condition::Stop)
        } else if name == "Infiltrate"@ || name == "Versus"@ {
            None
        } else {
            Some(Condition::Other)
        }
    }

    /// The condition that a text of the ability data stands for. A text that
    /// ends with `]` lists clans: it stands for `Versus` with these clans
    /// where it starts with that word, else for `Infiltrate`; and for nothing
    /// where a number in it is not that of a clan. Another text is the name of
    /// a condition.
    pub open spec fn spec_parse(text: Seq<char>) -> Option<Condition> {
        if spec_ends_with(text, "]"@) {
            let numbers = spec_clan_numbers(text);
            match spec_clans_of(numbers, numbers.len() as int) {
                Some(clans) => Some(
                    if spec_starts_with(text, "Versus"@) {
                        Condition::Versus(clans)
                    } else {
                        Condition::Infiltrate(clans)
                    },
                ),
                None => None,
            }
        } else {
            Condition::spec_named(text)
        }
    }

    /// The condition with the given name.
    pub fn named(name: &str) -> (condition: Option<Condition>)
        ensures
            condition == Condition::spec_named(name@),
    {
        if str_eq(name, "Courage") {
            Some(Condition::Courage)
        } else if str_eq(name, "Defeat") {
            Some(Condition::Defeat)
        } else if str_eq(name, "Brawl") {
            Some(Condition::Brawl)
        } else if str_eq(name, "Growth") {
            Some(Condition::Growth)
        } else if str_eq(name, "Confidence") {
            Some(Condition::Confidence)
        } else if str_eq(name, "Degrowth") {
            Some(Condition::Degrowth)
        } else if str_eq(name, "Victory Or Defeat") {
            Some(Condition::VictoryOrDefeat)
        } else if str_eq(name, "Equalizer") {
            Some(Condition::Equalizer)
        } else if str_eq(name, "Support") {
            Some(Condition::Support)
        } else if str_eq(name, "Team") {
            Some(Condition::Team)
        } else if str_eq(name, "Symmetry") {
            Some(Condition::Symmetry)
        } else if str_eq(name, "Revenge") {
            Some(Condition::Revenge)
        } else if str_eq(name, "Reprisal") {
            Some(Condition::Reprisal)
        } else if str_eq(name, "Day") {
            Some(Condition::Day)
        } else if str_eq(name, "Night") {
            Some(Condition::Night)
        } else if str_eq(name, "Killshot") {
            Some(Condition::Killshot)
        } else if str_eq(name, "Backlash") {
            Some(Condition::Backlash)
        } else if str_eq(name, "Asymmetry") {
            Some(Condition::Asymmetry)
        } else if str_eq(name, "Reanimate") {
            Some(Condition::Reanimate)
        } else if str_eq(name, "Stop") {
            Some(Condition::Stop)
        } else if str_eq(name, "Infiltrate") || str_eq(name, "Versus") {
            None
        } else {
            Some(Condition::Other)
        }
    }

    /// The set of the clans with the given numbers.
    pub fn clans_of(numbers: &Vec<String>) -> (clans: Option<ClanSet>)
        ensures
            clans == spec_clans_of(numbers@.map_values(|n: String| n@), numbers.len() as int),
    {
        let ghost texts = numbers@.map_values(|n: String| n@);
        let mut set = ClanSet::empty();
        let mut k: usize = 0;
        while k < numbers.len()
            invariant
                k <= numbers.len(),
                texts == numbers@.map_values(|n: String| n@),
                spec_clans_of(texts, k as int) == Some(set),
            decreases numbers.len() - k,
        {
            assert(texts[k as int] == numbers@[k as int]@);
            let id = match parse_u8(numbers[k].as_str()) {
                Some(id) => id,
                None => {
                    proof {
                        lemma_clans_of_fails(texts, k as int + 1, numbers.len() as int);
                    }
                    return None;
                },
            };
            let clan = match Clan::from_id(id) {
                Some(clan) => clan,
                None => {
                    proof {
                        lemma_clans_of_fails(texts, k as int + 1, numbers.len() as int);
                    }
                    return None;
                },
            };
            set = set.with(clan);
            k += 1;
        }
        Some(set)
    }

    /// Reads a condition from a text of the ability data.
    pub fn parse(text: &str) -> (condition: Option<Condition>)
        ensures
            condition == Condition::spec_parse(text@),
    {
        if ends_with(text, "]") {
            let numbers = clan_numbers(text);
            match Condition::clans_of(&numbers) {
                Some(clans) => Some(
                    if starts_with(text, "Versus") {
                        Condition::Versus(clans)
                    } else {
                        Condition::Infiltrate(clans)
                    },
                ),
                None => None,
            }
        } else {
            Condition::named(text)
        }
    }
}

/// Once a number is not that of a clan, no longer list has a set.
pub proof fn lemma_clans_of_fails(numbers: Seq<Seq<char>>, n: int, m: int)
    requires
        0 < n <= m,
        spec_clans_of(numbers, n).is_none(),
    ensures
        spec_clans_of(numbers, m).is_none(),
    decreases m - n,
{
    if n < m {
        lemma_clans_of_fails(numbers, n + 1, m);
    }
}

impl Condition {
    /// Whether the condition holds of a round, as the acting side sees it.
    pub open spec fn spec_is_met(self, data: BattleData, catalog: Catalog) -> bool {
        match self {
            Condition::Defeat => data.player.won == RoundWin::LOSE,
            Condition::Night => true,
            Condition::Day => true,
            Condition::Courage => data.first,
            Condition::Revenge => data.player.won_previous == RoundWin::LOSE,
            Condition::Confidence => data.player.won_previous == RoundWin::WIN,
            Condition::Reprisal => !data.first,
            Condition::Killshot => data.acting().attack.value >= data.opposing().attack.value * 2,
            Condition::Backlash => data.player.won == RoundWin::WIN,
            Condition::Reanimate => data.player.won == RoundWin::LOSE && data.player.life == 0,
            Condition::Stop => data.acting().ability.cancelled != 0,
            Condition::Symmetry => data.acting().index == data.opposing().index,
            Condition::Asymmetry => data.acting().index != data.opposing().index,
            Condition::Infiltrate(clans) => data.hand.oculus_clan != Clan::NoClan
                && clans.spec_contains(data.hand.oculus_clan),
            Condition::Versus(clans) => exists|i: int|
                0 <= i < 4 && clans.spec_contains(
                    (#[trigger] data.opp_hand.cards[i]).spec_clan(catalog),
                ),
            _ => true,
        }
    }

    /// Whether the condition holds of a round, as the acting side sees it.
    pub fn is_met(&self, data: &BattleData, catalog: &Catalog) -> (met: bool)
        requires
            data.wf(*catalog),
        ensures
            met == self.spec_is_met(*data, *catalog),
    {
        match self {
            Condition::Defeat => data.player.won == RoundWin::LOSE,
            Condition::Night => true,
            Condition::Day => true,
            Condition::Courage => data.first,
            Condition::Revenge => data.player.won_previous == RoundWin::LOSE,
            Condition::Confidence => data.player.won_previous == RoundWin::WIN,
            Condition::Reprisal => !data.first,
            Condition::Killshot => data.acting_card().attack.value as u32
                >= data.opposing_card().attack.value as u32 * 2,
            Condition::Backlash => data.player.won == RoundWin::WIN,
            Condition::Reanimate => data.player.won == RoundWin::LOSE && data.player.life == 0,
            Condition::Stop => data.acting_card().ability.cancelled != 0,
            Condition::Symmetry => data.acting_card().index == data.opposing_card().index,
            Condition::Asymmetry => data.acting_card().index != data.opposing_card().index,
            Condition::Infiltrate(clans) => data.hand.oculus_clan != Clan::NoClan && clans.contains(
                data.hand.oculus_clan,
            ),
            Condition::Versus(clans) => {
                let mut i: usize = 0;
                while i < 4
                    invariant
                        i <= 4,
                        data.wf(*catalog),
                        *self == Condition::Versus(*clans),
                        forall|j: int|
                            0 <= j < i ==> !clans.spec_contains(
                                (#[trigger] data.opp_hand.cards[j]).spec_clan(*catalog),
                            ),
                    decreases 4 - i,
                {
                    if clans.contains(data.opp_hand.cards[i].clan(catalog)) {
                        return true;
                    }
                    i += 1;
                }
                false
            },
            _ => true,
        }
    }
}

/// What applying an ability gives: the ability as it is afterwards, the round
/// as it is afterwards and the ability that came into play, if one did.
pub struct AbilityOutcome {
    pub ability: AbilityView,
    pub data: BattleData,
    pub spawned: Option<Ability>,
}

impl AbilityView {
    /// Whether the ability lasts beyond the round and waits for the round's
    /// result before it first acts: one of the three lasting kinds.
    pub open spec fn is_gated(self) -> bool {
        self.ability_type == AbilityType::Global || self.ability_type == AbilityType::GlobalAbility
            || self.ability_type == AbilityType::GlobalBonus
    }

    /// Whether every condition of the ability holds. An empty slot asks for
    /// nothing.
    pub open spec fn conditions_met(self, data: BattleData, catalog: Catalog) -> bool {
        forall|i: int|
            0 <= i < self.conditions.len() ==> ((#[trigger] self.conditions[i]) matches Some(c)
                ==> c.spec_is_met(data, catalog))
    }

    /// Whether the acting card's side of the ability is free to act: its
    /// ability for an ability, its bonus for a bonus.
    pub open spec fn is_free(self, data: BattleData) -> bool {
        match self.ability_type {
            AbilityType::Ability => !data.acting().ability.spec_is_blocked(),
            AbilityType::GlobalAbility => !data.acting().ability.spec_is_blocked(),
            AbilityType::Bonus => !data.acting().bonus.spec_is_blocked(),
            AbilityType::GlobalBonus => !data.acting().bonus.spec_is_blocked(),
            AbilityType::Global => true,
        }
    }

    /// The ability after it was asked whether it applies, and the answer.
    ///
    /// A gated ability that has not yet triggered is marked for removal, and
    /// does not apply, where its side has just lost the round; else it is
    /// marked as triggered. A delayed ability then loses the delay and does
    /// not apply. Another applies where its conditions hold and its side of
    /// the acting card is free.
    pub open spec fn spec_can_apply(self, data: BattleData, catalog: Catalog) -> (AbilityView, bool) {
        if self.is_gated() && !self.won && data.player.won == RoundWin::LOSE {
            (AbilityView { remove: true, ..self }, false)
        } else {
            let triggered = if self.is_gated() && !self.won {
                AbilityView { won: true, ..self }
            } else {
                self
            };
            if triggered.delayed {
                (AbilityView { delayed: false, ..triggered }, false)
            } else {
                (triggered, triggered.conditions_met(data, catalog) && triggered.is_free(data))
            }
        }
    }

    /// What applying the first `n` modifiers, in order, gives. An empty slot
    /// does nothing. The ability that comes into play is that of the last
    /// modifier applied.
    pub open spec fn spec_run(self, data: BattleData, catalog: Catalog, n: int) -> AbilityOutcome
        decreases n,
    {
        if n <= 0 {
            AbilityOutcome { ability: self, data, spawned: None }
        } else {
            let before = self.spec_run(data, catalog, n - 1);
            match before.ability.modifiers[n - 1] {
                Some(modifier) => {
                    let out = modifier.spec_apply(before.data, catalog);
                    AbilityOutcome {
                        ability: AbilityView {
                            modifiers: before.ability.modifiers.update(n - 1, Some(out.modifier)),
                            ..before.ability
                        },
                        data: out.data,
                        spawned: out.spawned,
                    }
                },
                None => before,
            }
        }
    }

    /// What applying the ability to a round gives: where it applies, what its
    /// modifiers give, one after the other; where it does not, the round as it
    /// was.
    pub open spec fn spec_apply(self, data: BattleData, catalog: Catalog) -> AbilityOutcome {
        let (asked, can) = self.spec_can_apply(data, catalog);
        if can {
            asked.spec_run(data, catalog, asked.modifiers.len() as int)
        } else {
            AbilityOutcome { ability: asked, data, spawned: None }
        }
    }
}

/// Applying modifiers changes neither their number nor anything of the
/// ability but the modifiers, and leaves every card in its place and known.
pub proof fn lemma_run_keeps_wf(ability: AbilityView, data: BattleData, catalog: Catalog, n: int)
    requires
        data.wf(catalog),
        n <= ability.modifiers.len(),
    ensures
        ability.spec_run(data, catalog, n).data.wf(catalog),
        spec_steady(data, ability.spec_run(data, catalog, n).data),
        ability.spec_run(data, catalog, n).ability.modifiers.len() == ability.modifiers.len(),
        ability.spec_run(data, catalog, n).ability.conditions == ability.conditions,
        ability.spec_run(data, catalog, n).ability.ability_type == ability.ability_type,
        ability.spec_run(data, catalog, n).ability.delayed == ability.delayed,
        ability.spec_run(data, catalog, n).ability.won == ability.won,
        ability.spec_run(data, catalog, n).ability.remove == ability.remove,
        forall|i: int|
            n <= i < ability.modifiers.len() && 0 <= i ==> ability.spec_run(
                data,
                catalog,
                n,
            ).ability.modifiers[i] == ability.modifiers[i],
    decreases n,
{
    if n > 0 {
        lemma_run_keeps_wf(ability, data, catalog, n - 1);
        let before = ability.spec_run(data, catalog, n - 1);
        match before.ability.modifiers[n - 1] {
            Some(modifier) => {
                lemma_modifier_keeps_wf(modifier, before.data, catalog);
            },
            None => {},
        }
    }
}

/// Applying an ability leaves every card in its place and known.
pub proof fn lemma_apply_keeps_wf(ability: AbilityView, data: BattleData, catalog: Catalog)
    requires
        data.wf(catalog),
    ensures
        ability.spec_apply(data, catalog).data.wf(catalog),
        spec_steady(data, ability.spec_apply(data, catalog).data),
{
    let (asked, can) = ability.spec_can_apply(data, catalog);
    if can {
        lemma_run_keeps_wf(asked, data, catalog, asked.modifiers.len() as int);
    }
}

impl Ability {
    /// Asks the ability whether it applies to a round. The question itself
    /// may change the ability: it may mark it as triggered or for removal, or
    /// take its delay away.
    pub fn can_apply(&mut self, data: &BattleData, catalog: &Catalog) -> (can: bool)
        requires
            data.wf(*catalog),
        ensures
            (final(self)@, can) == old(self)@.spec_can_apply(*data, *catalog),
    {
        let gated = matches!(
            self.ability_type,
            AbilityType::Global | AbilityType::GlobalAbility | AbilityType::GlobalBonus
        );
        if gated && !self.won {
            if data.player.won == RoundWin::LOSE {
                self.remove = true;
                return false;
            } else {
                self.won = true;
            }
        }
        if self.delayed {
            self.delayed = false;
            return false;
        }
        let ghost asked = self@;
        let n = conditions_len(&self.conditions);
        let mut i: usize = 0;
        while i < n
            invariant
                i <= n,
                n == self@.conditions.len(),
                data.wf(*catalog),
                self@ == asked,
                old(self)@.spec_can_apply(*data, *catalog) == (
                    asked,
                    asked.conditions_met(*data, *catalog) && asked.is_free(*data),
                ),
                forall|j: int|
                    0 <= j < i ==> ((#[trigger] self@.conditions[j]) matches Some(c) ==> c.spec_is_met(
                        *data,
                        *catalog,
                    )),
            decreases n - i,
        {
            match condition_at(&self.conditions, i) {
                Some(condition) => {
                    if !condition.is_met(data, catalog) {
                        return false;
                    }
                },
                None => {},
            }
            i += 1;
        }
        let card = data.acting_card();
        match self.ability_type {
            AbilityType::Ability | AbilityType::GlobalAbility => !card.ability.is_blocked(),
            AbilityType::Bonus | AbilityType::GlobalBonus => !card.bonus.is_blocked(),
            AbilityType::Global => true,
        }
    }

    /// Applies the ability to a round, if it applies, and hands back the
    /// ability that came into play, if one did.
    pub fn apply(&mut self, data: &mut BattleData, catalog: &Catalog) -> (spawned: Option<Ability>)
        requires
            old(data).wf(*catalog),
        ensures
            (AbilityOutcome { ability: final(self)@, data: *final(data), spawned }) == old(
                self,
            )@.spec_apply(*old(data), *catalog),
            final(data).wf(*catalog),
    {
        let mut spawned: Option<Ability> = None;
        if self.can_apply(data, catalog) {
            let ghost asked = self@;
            let n = modifiers_len(&self.modifiers);
            let mut i: usize = 0;
            while i < n
                invariant
                    i <= n,
                    n == asked.modifiers.len(),
                    data.wf(*catalog),
                    old(data).wf(*catalog),
                    (AbilityOutcome { ability: self@, data: *data, spawned }) == asked.spec_run(
                        *old(data),
                        *catalog,
                        i as int,
                    ),
                decreases n - i,
            {
                proof {
                    lemma_run_keeps_wf(asked, *old(data), *catalog, i as int);
                }
                match modifier_at(&self.modifiers, i) {
                    Some(modifier) => {
                        let mut modifier = modifier;
                        spawned = modifier.apply(data, catalog);
                        set_modifier(&mut self.modifiers, i, Some(modifier));
                    },
                    None => {},
                }
                i += 1;
            }
        }
        spawned
    }
}

} // verus!
