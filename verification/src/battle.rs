use vstd::prelude::*;
use crate::ability::{lemma_apply_keeps_wf, Ability, AbilityType, AbilityView};
use crate::card::{AttackStat, Card, CardStat, Hand};
use crate::catalog::Catalog;
use crate::game::Player;
use crate::modifiers::{CancelModifier, EventTime, Modifier, Stat};

verus! {

/// A round as one side sees it: the side's own player, hand and card in play,
/// and the opposing ones.
#[derive(Clone, Copy, Debug)]
pub struct BattleData {
    pub round: u8,
    pub first: bool,
    pub player: Player,
    pub hand: Hand,
    pub card: usize,
    pub player_pillz_used: u8,
    pub opp: Player,
    pub opp_hand: Hand,
    pub opp_card: usize,
    pub opp_pillz_used: u8,
}

impl BattleData {
    /// Both cards in play are cards of the hands, and every card knows its
    /// position.
    pub open spec fn placed(self) -> bool {
        &&& self.card < 4
        &&& self.opp_card < 4
        &&& self.hand.placed()
        &&& self.opp_hand.placed()
    }

    /// Every card of both hands is known to the catalog.
    pub open spec fn known(self, catalog: Catalog) -> bool {
        &&& self.hand.known(catalog)
        &&& self.opp_hand.known(catalog)
    }

    /// The cards are in their places and known to the catalog.
    pub open spec fn wf(self, catalog: Catalog) -> bool {
        self.placed() && self.known(catalog)
    }

    /// The value of `stat` on the acting side or, with `opp`, on the
    /// opposing side.
    pub open spec fn spec_stat(self, opp: bool, stat: Stat) -> int {
        let card = if opp {
            self.opposing()
        } else {
            self.acting()
        };
        let player = if opp {
            self.opp
        } else {
            self.player
        };
        match stat {
            Stat::Power => card.power.value as int,
            Stat::Damage => card.damage.value as int,
            Stat::Attack => card.attack.value as int,
            Stat::Life => player.life as int,
            Stat::Pillz => player.pillz as int,
        }
    }

    /// The round with `stat` set to `value` on the acting side or, with
    /// `opp`, on the opposing side. The value is cut to the width of the
    /// stat.
    pub open spec fn spec_with_stat(self, opp: bool, stat: Stat, value: int) -> BattleData {
        let card = if opp {
            self.opposing()
        } else {
            self.acting()
        };
        let player = if opp {
            self.opp
        } else {
            self.player
        };
        match stat {
            Stat::Power => self.spec_with_card(
                opp,
                Card { power: CardStat { value: value as u8, ..card.power }, ..card },
            ),
            Stat::Damage => self.spec_with_card(
                opp,
                Card { damage: CardStat { value: value as u8, ..card.damage }, ..card },
            ),
            Stat::Attack => self.spec_with_card(
                opp,
                Card { attack: AttackStat { value: value as u16, ..card.attack }, ..card },
            ),
            Stat::Life => self.spec_with_player(opp, Player { life: value as u8, ..player }),
            Stat::Pillz => self.spec_with_player(opp, Player { pillz: value as u8, ..player }),
        }
    }

    /// The round with the card in play of the acting side or, with `opp`, of
    /// the opposing side replaced.
    pub open spec fn spec_with_card(self, opp: bool, card: Card) -> BattleData {
        if opp {
            self.with_opposing(card)
        } else {
            self.with_acting(card)
        }
    }

    /// The round with the player of the acting side or, with `opp`, of the
    /// opposing side replaced.
    pub open spec fn spec_with_player(self, opp: bool, player: Player) -> BattleData {
        if opp {
            BattleData { opp: player, ..self }
        } else {
            BattleData { player, ..self }
        }
    }

    /// The acting side's card in play.
    pub open spec fn acting(self) -> Card {
        self.hand.cards[self.card as int]
    }

    /// The opposing side's card in play.
    pub open spec fn opposing(self) -> Card {
        self.opp_hand.cards[self.opp_card as int]
    }

    /// The round with the acting side's card in play replaced.
    pub open spec fn with_acting(self, card: Card) -> BattleData {
        BattleData { hand: self.hand.with_card(self.card as int, card), ..self }
    }

    /// The round with the opposing side's card in play replaced.
    pub open spec fn with_opposing(self, card: Card) -> BattleData {
        BattleData { opp_hand: self.opp_hand.with_card(self.opp_card as int, card), ..self }
    }

    /// The round as the other side sees it.
    pub open spec fn mirrored(self) -> BattleData {
        BattleData {
            round: self.round,
            first: !self.first,
            player: self.opp,
            hand: self.opp_hand,
            card: self.opp_card,
            player_pillz_used: self.opp_pillz_used,
            opp: self.player,
            opp_hand: self.hand,
            opp_card: self.card,
            opp_pillz_used: self.player_pillz_used,
        }
    }

    /// Turns the round round: what was the opposing side becomes the acting
    /// side.
    pub fn mirror(&mut self)
        ensures
            *final(self) == old(self).mirrored(),
    {
        *self = BattleData {
            round: self.round,
            first: !self.first,
            player: self.opp,
            hand: self.opp_hand,
            card: self.opp_card,
            player_pillz_used: self.opp_pillz_used,
            opp: self.player,
            opp_hand: self.hand,
            opp_card: self.card,
            opp_pillz_used: self.player_pillz_used,
        };
    }

    /// The value of `stat` on the acting side or, with `opp`, on the
    /// opposing side.
    pub fn stat(&self, opp: bool, stat: Stat) -> (value: u16)
        requires
            self.card < 4,
            self.opp_card < 4,
        ensures
            value == self.spec_stat(opp, stat),
    {
        let card = if opp {
            self.opposing_card()
        } else {
            self.acting_card()
        };
        let player = if opp {
            self.opp
        } else {
            self.player
        };
        match stat {
            Stat::Power => card.power.value as u16,
            Stat::Damage => card.damage.value as u16,
            Stat::Attack => card.attack.value,
            Stat::Life => player.life as u16,
            Stat::Pillz => player.pillz as u16,
        }
    }

    /// Sets `stat` to `value`, cut to the width of the stat, on the acting
    /// side or, with `opp`, on the opposing side.
    pub fn set_stat(&mut self, opp: bool, stat: Stat, value: i64)
        requires
            old(self).card < 4,
            old(self).opp_card < 4,
        ensures
            *final(self) == old(self).spec_with_stat(opp, stat, value as int),
    {
        let mut card = if opp {
            self.opposing_card()
        } else {
            self.acting_card()
        };
        match stat {
            Stat::Power => {
                card.power.value = #[verifier::truncate]
                (value as u8);
                self.set_card(opp, card);
            },
            Stat::Damage => {
                card.damage.value = #[verifier::truncate]
                (value as u8);
                self.set_card(opp, card);
            },
            Stat::Attack => {
                card.attack.value = #[verifier::truncate]
                (value as u16);
                self.set_card(opp, card);
            },
            Stat::Life => {
                let life = #[verifier::truncate]
                (value as u8);
                if opp {
                    self.opp.life = life;
                } else {
                    self.player.life = life;
                }
            },
            Stat::Pillz => {
                let pillz = #[verifier::truncate]
                (value as u8);
                if opp {
                    self.opp.pillz = pillz;
                } else {
                    self.player.pillz = pillz;
                }
            },
        }
    }

    /// Replaces the card in play of the acting side or, with `opp`, of the
    /// opposing side.
    pub fn set_card(&mut self, opp: bool, card: Card)
        requires
            old(self).card < 4,
            old(self).opp_card < 4,
        ensures
            *final(self) == old(self).spec_with_card(opp, card),
    {
        if opp {
            self.set_opposing(card);
        } else {
            self.set_acting(card);
        }
    }

    /// A copy of the acting side's card in play.
    pub fn acting_card(&self) -> (card: Card)
        requires
            self.card < 4,
        ensures
            card == self.acting(),
    {
        self.hand.cards[self.card]
    }

    /// A copy of the opposing side's card in play.
    pub fn opposing_card(&self) -> (card: Card)
        requires
            self.opp_card < 4,
        ensures
            card == self.opposing(),
    {
        self.opp_hand.cards[self.opp_card]
    }

    /// Replaces the acting side's card in play.
    pub fn set_acting(&mut self, card: Card)
        requires
            old(self).card < 4,
        ensures
            *final(self) == old(self).with_acting(card),
    {
        self.hand.cards[self.card] = card;
        assert(self.hand.cards =~= old(self).with_acting(card).hand.cards);
    }

    /// Replaces the opposing side's card in play.
    pub fn set_opposing(&mut self, card: Card)
        requires
            old(self).opp_card < 4,
        ensures
            *final(self) == old(self).with_opposing(card),
    {
        self.opp_hand.cards[self.opp_card] = card;
        assert(self.opp_hand.cards =~= old(self).with_opposing(card).opp_hand.cards);
    }
}

/// What no ability changes of a card: its place, its identity, its level and
/// whether it was played and has won.
pub open spec fn spec_same_card(a: Card, b: Card) -> bool {
    &&& a.index == b.index
    &&& a.id == b.id
    &&& a.level == b.level
    &&& a.played == b.played
    &&& a.won == b.won
}

/// What no ability changes of a hand: the counts, the wildcard's clan and, of
/// each card, what `spec_same_card` names.
pub open spec fn spec_same_hand(a: Hand, b: Hand) -> bool {
    &&& a.clan_count == b.clan_count
    &&& a.oculus_clan == b.oculus_clan
    &&& forall|i: int| 0 <= i < 4 ==> spec_same_card(#[trigger] a.cards[i], b.cards[i])
}

/// What no ability changes of a player: everything but life and pillz.
pub open spec fn spec_same_player(a: Player, b: Player) -> bool {
    &&& a.player_type == b.player_type
    &&& a.life_previous == b.life_previous
    &&& a.pillz_previous == b.pillz_previous
    &&& a.won == b.won
    &&& a.won_previous == b.won_previous
}

/// What no ability changes of a round.
pub open spec fn spec_steady(a: BattleData, b: BattleData) -> bool {
    &&& a.round == b.round
    &&& a.first == b.first
    &&& a.card == b.card
    &&& a.opp_card == b.opp_card
    &&& a.player_pillz_used == b.player_pillz_used
    &&& a.opp_pillz_used == b.opp_pillz_used
    &&& spec_same_player(a.player, b.player)
    &&& spec_same_player(a.opp, b.opp)
    &&& spec_same_hand(a.hand, b.hand)
    &&& spec_same_hand(a.opp_hand, b.opp_hand)
}

/// Replacing a card in play by one that differs from it in nothing that
/// `spec_same_card` names, and is known, keeps the round well formed and
/// steady.
pub proof fn lemma_with_card_steady(data: BattleData, catalog: Catalog, opp: bool, card: Card)
    requires
        data.wf(catalog),
        card.known(catalog),
        spec_same_card(
            if opp {
                data.opposing()
            } else {
                data.acting()
            },
            card,
        ),
    ensures
        data.spec_with_card(opp, card).wf(catalog),
        spec_steady(data, data.spec_with_card(opp, card)),
        data.spec_with_card(opp, card).acting() == if opp {
            data.acting()
        } else {
            card
        },
        data.spec_with_card(opp, card).opposing() == if opp {
            card
        } else {
            data.opposing()
        },
{
    let after = data.spec_with_card(opp, card);
    assert forall|i: int| 0 <= i < 4 implies spec_same_card(
        #[trigger] data.hand.cards[i],
        after.hand.cards[i],
    ) by {}
    assert forall|i: int| 0 <= i < 4 implies spec_same_card(
        #[trigger] data.opp_hand.cards[i],
        after.opp_hand.cards[i],
    ) by {}
}

/// A round is steady against itself, and steadiness carries over.
pub proof fn lemma_steady_chain(a: BattleData, b: BattleData, c: BattleData)
    ensures
        spec_steady(a, a),
        spec_steady(a, b) && spec_steady(b, c) ==> spec_steady(a, c),
        spec_steady(a, b) ==> spec_steady(a.mirrored(), b.mirrored()),
{
    if spec_steady(a, b) && spec_steady(b, c) {
        assert forall|i: int| 0 <= i < 4 implies spec_same_card(
            #[trigger] a.hand.cards[i],
            c.hand.cards[i],
        ) by {
            assert(spec_same_card(a.hand.cards[i], b.hand.cards[i]));
            assert(spec_same_card(b.hand.cards[i], c.hand.cards[i]));
        }
        assert forall|i: int| 0 <= i < 4 implies spec_same_card(
            #[trigger] a.opp_hand.cards[i],
            c.opp_hand.cards[i],
        ) by {
            assert(spec_same_card(a.opp_hand.cards[i], b.opp_hand.cards[i]));
            assert(spec_same_card(b.opp_hand.cards[i], c.opp_hand.cards[i]));
        }
    }
}

/// Replacing a card in play by a card with the same position and the same
/// known identifiers keeps the cards in their places and known.
pub proof fn lemma_replace_keeps_wf(data: BattleData, catalog: Catalog, card: Card)
    requires
        data.placed(),
    ensures
        card.index == data.acting().index ==> data.with_acting(card).placed(),
        card.index == data.opposing().index ==> data.with_opposing(card).placed(),
        data.known(catalog) && card.known(catalog) ==> data.with_acting(card).known(catalog)
            && data.with_opposing(card).known(catalog),
        data.with_acting(card).acting() == card,
        data.with_opposing(card).opposing() == card,
        data.with_acting(card).opposing() == data.opposing(),
        data.with_opposing(card).acting() == data.acting(),
{
}

/// The abilities of one side that wait for their checkpoint: those of the
/// round, and those that last beyond it, each kind in ten buckets, one for
/// each checkpoint.
#[derive(Debug)]
pub struct Events {
    pub events: Vec<Vec<Ability>>,
    pub global: Vec<Vec<Ability>>,
}

/// The waiting abilities as values.
pub struct EventsView {
    pub events: Seq<Seq<AbilityView>>,
    pub global: Seq<Seq<AbilityView>>,
}

/// A bucket as a sequence of abilities.
pub open spec fn bucket_view(bucket: Vec<Ability>) -> Seq<AbilityView> {
    bucket@.map_values(|a: Ability| a@)
}

/// Ten buckets as sequences of abilities.
pub open spec fn buckets_view(buckets: Vec<Vec<Ability>>) -> Seq<Seq<AbilityView>> {
    buckets@.map_values(|b: Vec<Ability>| bucket_view(b))
}

impl View for Events {
    type V = EventsView;

    open spec fn view(&self) -> EventsView {
        EventsView { events: buckets_view(self.events), global: buckets_view(self.global) }
    }
}

/// What one ability of the first checkpoint before the fight makes of its
/// cancel, and whether it changed anything.
///
/// Only an ability or a bonus whose first modifier is a cancel that remembers
/// whether it is applied is looked at. Where the acting card's ability (for an
/// ability) or bonus (for a bonus) is blocked and the cancel is applied, the
/// cancel is taken back; where it is not blocked and the cancel is not
/// applied, the cancel is made again.
pub open spec fn spec_check_cancel(ability: AbilityView, data: BattleData) -> (bool, BattleData) {
    if ability.modifiers.len() > 0 {
        match ability.modifiers[0] {
            Some(Modifier::Cancel(modifier)) => match modifier.applied {
                Some(applied) => {
                    let mismatch = match ability.ability_type {
                        AbilityType::Ability => data.acting().ability.spec_is_blocked() == applied,
                        AbilityType::Bonus => data.acting().bonus.spec_is_blocked() == applied,
                        _ => false,
                    };
                    if !mismatch {
                        (false, data)
                    } else if applied {
                        (true, modifier.spec_undo(data).1)
                    } else {
                        (true, modifier.spec_apply(data).1)
                    }
                },
                None => (false, data),
            },
            _ => (false, data),
        }
    } else {
        (false, data)
    }
}

/// What the first `n` abilities of a bucket make of their cancels, one after
/// the other, and whether any of them changed anything.
pub open spec fn spec_check_bucket(bucket: Seq<AbilityView>, n: int, data: BattleData) -> (
    bool,
    BattleData,
)
    decreases n,
{
    if n <= 0 {
        (false, data)
    } else {
        let (changed, before) = spec_check_bucket(bucket, n - 1, data);
        let (now, after) = spec_check_cancel(bucket[n - 1], before);
        (changed || now, after)
    }
}

impl EventsView {
    /// There are ten buckets of each kind.
    pub open spec fn wf(self) -> bool {
        self.events.len() == 10 && self.global.len() == 10
    }

    /// No ability of the round is waiting.
    pub open spec fn is_idle(self) -> bool {
        forall|i: int| 0 <= i < self.events.len() ==> (#[trigger] self.events[i]).len() == 0
    }

    /// The queue with `ability` put into the bucket of its checkpoint, at the
    /// end: among those of the round for an ability or a bonus, among the
    /// lasting ones for a lasting ability or bonus. One without a first
    /// modifier is not put anywhere; nor is a `Global` ability, which belongs
    /// to a match from its start and not to the round in which its card is
    /// played: `spec_add_global` puts it into the queue.
    pub open spec fn spec_add(self, ability: AbilityView) -> EventsView {
        if !ability.is_timed() {
            self
        } else {
            let i = ability.event_time().spec_index();
            match ability.ability_type {
                AbilityType::Ability => EventsView {
                    events: self.events.update(i, self.events[i].push(ability)),
                    ..self
                },
                AbilityType::Bonus => EventsView {
                    events: self.events.update(i, self.events[i].push(ability)),
                    ..self
                },
                AbilityType::GlobalAbility => EventsView {
                    global: self.global.update(i, self.global[i].push(ability)),
                    ..self
                },
                AbilityType::GlobalBonus => EventsView {
                    global: self.global.update(i, self.global[i].push(ability)),
                    ..self
                },
                AbilityType::Global => self,
            }
        }
    }

    /// The queue with `ability`, of whatever kind, put among the lasting ones,
    /// into the bucket of its checkpoint. One without a first modifier is not
    /// put anywhere.
    pub open spec fn spec_add_global(self, ability: AbilityView) -> EventsView {
        if !ability.is_timed() {
            self
        } else {
            let i = ability.event_time().spec_index();
            EventsView { global: self.global.update(i, self.global[i].push(ability)), ..self }
        }
    }

    /// The queue and the round after the first `n` abilities of `bucket` were
    /// applied, in order, each ability that came into play being queued.
    pub open spec fn spec_run_bucket(
        self,
        bucket: Seq<AbilityView>,
        n: int,
        data: BattleData,
        catalog: Catalog,
    ) -> (EventsView, BattleData)
        decreases n,
    {
        if n <= 0 {
            (self, data)
        } else {
            let (queue, before) = self.spec_run_bucket(bucket, n - 1, data, catalog);
            let out = bucket[n - 1].spec_apply(before, catalog);
            (
                match out.spawned {
                    Some(ability) => queue.spec_add(ability@),
                    None => queue,
                },
                out.data,
            )
        }
    }

    /// The queue and the round after the checkpoint `time`.
    ///
    /// The round's abilities of the checkpoint leave the queue and are
    /// applied, in order; what they bring into play is queued. Then the
    /// lasting abilities of the checkpoint are applied, in order; those marked
    /// for removal leave the queue, the others stay as they are after being
    /// applied.
    pub open spec fn spec_execute(self, time: EventTime, data: BattleData, catalog: Catalog) -> (
        EventsView,
        BattleData,
    ) {
        let i = time.spec_index();
        let drained = EventsView { events: self.events.update(i, Seq::empty()), ..self };
        let (queue, before) = drained.spec_run_bucket(
            self.events[i],
            self.events[i].len() as int,
            data,
            catalog,
        );
        let (kept, after) = spec_run_global(
            queue.global[i],
            queue.global[i].len() as int,
            before,
            catalog,
        );
        (EventsView { global: queue.global.update(i, kept), ..queue }, after)
    }

    /// The queue and the round after the four checkpoints that follow the
    /// computing of the attacks, in order.
    pub open spec fn spec_execute_post(self, data: BattleData, catalog: Catalog) -> (
        EventsView,
        BattleData,
    ) {
        let (q1, d1) = self.spec_execute(EventTime::POST1, data, catalog);
        let (q2, d2) = q1.spec_execute(EventTime::POST2, d1, catalog);
        let (q3, d3) = q2.spec_execute(EventTime::POST3, d2, catalog);
        q3.spec_execute(EventTime::POST4, d3, catalog)
    }

    /// The queue without the abilities of the round.
    pub open spec fn spec_cleared(self) -> EventsView {
        EventsView { events: Seq::new(10, |i: int| Seq::<AbilityView>::empty()), ..self }
    }
}

/// The lasting abilities that stay and the round after the first `n` lasting
/// abilities of `bucket` were applied, in order. One that is marked for removal
/// once it was applied does not stay. What they bring into play is dropped.
pub open spec fn spec_run_global(
    bucket: Seq<AbilityView>,
    n: int,
    data: BattleData,
    catalog: Catalog,
) -> (Seq<AbilityView>, BattleData)
    decreases n,
{
    if n <= 0 {
        (Seq::empty(), data)
    } else {
        let (kept, before) = spec_run_global(bucket, n - 1, data, catalog);
        let out = bucket[n - 1].spec_apply(before, catalog);
        (
            if out.ability.remove {
                kept
            } else {
                kept.push(out.ability)
            },
            out.data,
        )
    }
}

/// Ten buckets of which one was replaced, as sequences.
pub proof fn lemma_bucket_replaced(
    before: Vec<Vec<Ability>>,
    after: Vec<Vec<Ability>>,
    i: int,
    bucket: Seq<AbilityView>,
)
    requires
        0 <= i < before@.len(),
        after@.len() == before@.len(),
        forall|j: int| 0 <= j < before@.len() && j != i ==> after@[j] == before@[j],
        bucket_view(after@[i]) =~= bucket,
    ensures
        buckets_view(after) == buckets_view(before).update(i, bucket),
{
    assert(buckets_view(after) =~= buckets_view(before).update(i, bucket));
}

/// Running a bucket keeps the queue and the round well formed and the round
/// steady.
pub proof fn lemma_run_bucket_keeps(
    queue: EventsView,
    bucket: Seq<AbilityView>,
    n: int,
    data: BattleData,
    catalog: Catalog,
)
    requires
        queue.wf(),
        data.wf(catalog),
        n <= bucket.len(),
    ensures
        queue.spec_run_bucket(bucket, n, data, catalog).0.wf(),
        queue.spec_run_bucket(bucket, n, data, catalog).1.wf(catalog),
        spec_steady(data, queue.spec_run_bucket(bucket, n, data, catalog).1),
    decreases n,
{
    lemma_steady_chain(data, data, data);
    if n > 0 {
        lemma_run_bucket_keeps(queue, bucket, n - 1, data, catalog);
        let (before_queue, before) = queue.spec_run_bucket(bucket, n - 1, data, catalog);
        let out = bucket[n - 1].spec_apply(before, catalog);
        lemma_apply_keeps_wf(bucket[n - 1], before, catalog);
        lemma_steady_chain(data, before, out.data);
        match out.spawned {
            Some(ability) => lemma_add_keeps_wf(before_queue, ability@),
            None => {},
        }
    }
}

/// Running the lasting abilities keeps the round well formed and steady.
pub proof fn lemma_run_global_keeps(
    bucket: Seq<AbilityView>,
    n: int,
    data: BattleData,
    catalog: Catalog,
)
    requires
        data.wf(catalog),
        n <= bucket.len(),
    ensures
        spec_run_global(bucket, n, data, catalog).1.wf(catalog),
        spec_steady(data, spec_run_global(bucket, n, data, catalog).1),
    decreases n,
{
    lemma_steady_chain(data, data, data);
    if n > 0 {
        lemma_run_global_keeps(bucket, n - 1, data, catalog);
        let before = spec_run_global(bucket, n - 1, data, catalog).1;
        lemma_apply_keeps_wf(bucket[n - 1], before, catalog);
        lemma_steady_chain(data, before, bucket[n - 1].spec_apply(before, catalog).data);
    }
}

/// A checkpoint keeps the queue and the round well formed and the round
/// steady.
pub proof fn lemma_execute_keeps(
    queue: EventsView,
    time: EventTime,
    data: BattleData,
    catalog: Catalog,
)
    requires
        queue.wf(),
        data.wf(catalog),
    ensures
        queue.spec_execute(time, data, catalog).0.wf(),
        queue.spec_execute(time, data, catalog).1.wf(catalog),
        spec_steady(data, queue.spec_execute(time, data, catalog).1),
{
    let i = time.spec_index();
    let drained = EventsView { events: queue.events.update(i, Seq::empty()), ..queue };
    lemma_run_bucket_keeps(drained, queue.events[i], queue.events[i].len() as int, data, catalog);
    let (after_queue, before) = drained.spec_run_bucket(
        queue.events[i],
        queue.events[i].len() as int,
        data,
        catalog,
    );
    lemma_run_global_keeps(
        after_queue.global[i],
        after_queue.global[i].len() as int,
        before,
        catalog,
    );
    lemma_steady_chain(data, before, queue.spec_execute(time, data, catalog).1);
}

/// Looking again at the cancels keeps the round well formed and steady; and
/// where it reports no change, it has changed nothing.
pub proof fn lemma_check_bucket_keeps(
    bucket: Seq<AbilityView>,
    n: int,
    data: BattleData,
    catalog: Catalog,
)
    requires
        data.wf(catalog),
        n <= bucket.len(),
    ensures
        spec_check_bucket(bucket, n, data).1.wf(catalog),
        spec_steady(data, spec_check_bucket(bucket, n, data).1),
        !spec_check_bucket(bucket, n, data).0 ==> spec_check_bucket(bucket, n, data).1 == data,
    decreases n,
{
    lemma_steady_chain(data, data, data);
    if n > 0 {
        lemma_check_bucket_keeps(bucket, n - 1, data, catalog);
        let before = spec_check_bucket(bucket, n - 1, data).1;
        let ability = bucket[n - 1];
        if ability.modifiers.len() > 0 {
            match ability.modifiers[0] {
                Some(Modifier::Cancel(modifier)) => {
                    crate::modifiers::lemma_cancel_keeps_wf(modifier, before, catalog);
                },
                _ => {},
            }
        }
        lemma_steady_chain(data, before, spec_check_cancel(ability, before).1);
    }
}

/// Once looking again at the cancels reports no change, it has changed
/// nothing; so looking again once more reports no change either and changes
/// nothing.
pub proof fn lemma_check_cancels_settles(bucket: Seq<AbilityView>, n: int, data: BattleData)
    ensures
        !spec_check_bucket(bucket, n, data).0 ==> spec_check_bucket(bucket, n, data).1 == data,
        !spec_check_bucket(bucket, n, data).0 ==> spec_check_bucket(
            bucket,
            n,
            spec_check_bucket(bucket, n, data).1,
        ) == (false, data),
    decreases n,
{
    if n > 0 {
        lemma_check_cancels_settles(bucket, n - 1, data);
    }
}

/// Queueing keeps ten buckets of each kind.
pub proof fn lemma_add_keeps_wf(queue: EventsView, ability: AbilityView)
    requires
        queue.wf(),
    ensures
        queue.spec_add(ability).wf(),
        queue.spec_add_global(ability).wf(),
{
}

/// The queue in which nothing waits.
pub open spec fn spec_empty_queue() -> EventsView {
    EventsView {
        events: Seq::new(10, |i: int| Seq::<AbilityView>::empty()),
        global: Seq::new(10, |i: int| Seq::<AbilityView>::empty()),
    }
}

impl Default for Events {
    fn default() -> (queue: Self)
        ensures
            queue@ == spec_empty_queue(),
            queue@.wf(),
    {
        let mut events: Vec<Vec<Ability>> = Vec::new();
        let mut global: Vec<Vec<Ability>> = Vec::new();
        let mut i: usize = 0;
        while i < 10
            invariant
                i <= 10,
                events.len() == i,
                global.len() == i,
                forall|j: int| 0 <= j < i ==> (#[trigger] events[j]).len() == 0,
                forall|j: int| 0 <= j < i ==> (#[trigger] global[j]).len() == 0,
            decreases 10 - i,
        {
            events.push(Vec::new());
            global.push(Vec::new());
            i += 1;
        }
        let queue = Events { events, global };
        assert forall|j: int| 0 <= j < 10 implies (#[trigger] queue@.events[j]) =~= Seq::<
            AbilityView,
        >::empty() by {
            assert(queue.events[j].len() == 0);
        }
        assert forall|j: int| 0 <= j < 10 implies (#[trigger] queue@.global[j]) =~= Seq::<
            AbilityView,
        >::empty() by {
            assert(queue.global[j].len() == 0);
        }
        assert(queue@.events =~= spec_empty_queue().events);
        assert(queue@.global =~= spec_empty_queue().global);
        queue
    }
}

fn clone_buckets(buckets: &Vec<Vec<Ability>>) -> (copy: Vec<Vec<Ability>>)
    ensures
        buckets_view(copy) == buckets_view(*buckets),
{
    let mut copy: Vec<Vec<Ability>> = Vec::new();
    let mut i: usize = 0;
    while i < buckets.len()
        invariant
            i <= buckets.len(),
            copy.len() == i,
            forall|j: int| 0 <= j < i ==> copy[j]@ == buckets[j]@,
        decreases buckets.len() - i,
    {
        let mut bucket: Vec<Ability> = Vec::new();
        let mut k: usize = 0;
        while k < buckets[i].len()
            invariant
                i < buckets.len(),
                k <= buckets[i as int].len(),
                bucket@ == buckets[i as int]@.subrange(0, k as int),
            decreases buckets[i as int].len() - k,
        {
            bucket.push(buckets[i][k]);
            assert(bucket@ =~= buckets[i as int]@.subrange(0, k as int + 1));
            k += 1;
        }
        assert(bucket@ =~= buckets[i as int]@);
        copy.push(bucket);
        i += 1;
    }
    assert(buckets_view(copy) =~= buckets_view(*buckets));
    copy
}

impl Clone for Events {
    fn clone(&self) -> (copy: Self)
        ensures
            copy@ == self@,
    {
        Events { events: clone_buckets(&self.events), global: clone_buckets(&self.global) }
    }
}

/// Applies the lasting abilities of a bucket, in order, and hands back those
/// that stay.
fn run_lasting(lasting: &Vec<Ability>, data: &mut BattleData, catalog: &Catalog) -> (kept: Vec<
    Ability,
>)
    requires
        old(data).wf(*catalog),
    ensures
        (bucket_view(kept), *final(data)) == spec_run_global(
            bucket_view(*lasting),
            lasting.len() as int,
            *old(data),
            *catalog,
        ),
        final(data).wf(*catalog),
{
    let mut kept: Vec<Ability> = Vec::new();
    let mut k: usize = 0;
    while k < lasting.len()
        invariant
            k <= lasting.len(),
            data.wf(*catalog),
            (bucket_view(kept), *data) == spec_run_global(
                bucket_view(*lasting),
                k as int,
                *old(data),
                *catalog,
            ),
        decreases lasting.len() - k,
    {
        let mut ability = lasting[k];
        let _ = ability.apply(data, catalog);
        if !ability.remove {
            kept.push(ability);
            assert(bucket_view(kept) =~= spec_run_global(
                bucket_view(*lasting),
                k as int + 1,
                *old(data),
                *catalog,
            ).0);
        }
        k += 1;
    }
    kept
}

impl Events {
    /// Queues an ability for its checkpoint.
    pub fn add(&mut self, ability: Ability)
        requires
            old(self)@.wf(),
        ensures
            final(self)@ == old(self)@.spec_add(ability@),
            final(self)@.wf(),
    {
        if crate::ability::modifiers_len(&ability.modifiers) == 0 {
            return ;
        }
        if crate::ability::modifier_at(&ability.modifiers, 0).is_none() {
            return ;
        }
        let index = ability.event_time().index();
        match ability.ability_type {
            AbilityType::Ability | AbilityType::Bonus => {
                self.events[index].push(ability);
                proof {
                    lemma_bucket_replaced(
                        old(self).events,
                        self.events,
                        index as int,
                        old(self)@.events[index as int].push(ability@),
                    );
                }
            },
            AbilityType::GlobalAbility | AbilityType::GlobalBonus => {
                self.global[index].push(ability);
                proof {
                    lemma_bucket_replaced(
                        old(self).global,
                        self.global,
                        index as int,
                        old(self)@.global[index as int].push(ability@),
                    );
                }
            },
            AbilityType::Global => {},
        }
    }

    /// Queues an ability, of whatever kind, among the lasting ones.
    pub fn add_global(&mut self, ability: Ability)
        requires
            old(self)@.wf(),
        ensures
            final(self)@ == old(self)@.spec_add_global(ability@),
            final(self)@.wf(),
    {
        if crate::ability::modifiers_len(&ability.modifiers) == 0 {
            return ;
        }
        if crate::ability::modifier_at(&ability.modifiers, 0).is_none() {
            return ;
        }
        let index = ability.event_time().index();
        self.global[index].push(ability);
        proof {
            lemma_bucket_replaced(
                old(self).global,
                self.global,
                index as int,
                old(self)@.global[index as int].push(ability@),
            );
        }
    }

    /// Applies the abilities of a bucket that has left the queue, in order,
    /// and queues what they bring into play.
    fn run_bucket(&mut self, bucket: &Vec<Ability>, data: &mut BattleData, catalog: &Catalog)
        requires
            old(self)@.wf(),
            old(data).wf(*catalog),
        ensures
            (final(self)@, *final(data)) == old(self)@.spec_run_bucket(
                bucket_view(*bucket),
                bucket.len() as int,
                *old(data),
                *catalog,
            ),
            final(self)@.wf(),
            final(data).wf(*catalog),
    {
        let mut k: usize = 0;
        while k < bucket.len()
            invariant
                k <= bucket.len(),
                self@.wf(),
                data.wf(*catalog),
                (self@, *data) == old(self)@.spec_run_bucket(
                    bucket_view(*bucket),
                    k as int,
                    *old(data),
                    *catalog,
                ),
            decreases bucket.len() - k,
        {
            let mut ability = bucket[k];
            let spawned = ability.apply(data, catalog);
            match spawned {
                Some(new_ability) => {
                    self.add(new_ability);
                },
                None => {},
            }
            k += 1;
        }
    }

    /// Runs the checkpoint `event` of a round for this side.
    pub fn execute(&mut self, event: EventTime, data: &mut BattleData, catalog: &Catalog)
        requires
            old(self)@.wf(),
            old(data).wf(*catalog),
        ensures
            (final(self)@, *final(data)) == old(self)@.spec_execute(event, *old(data), *catalog),
            final(self)@.wf(),
            final(data).wf(*catalog),
    {
        let index = event.index();
        let mut bucket: Vec<Ability> = Vec::new();
        core::mem::swap(&mut bucket, &mut self.events[index]);
        proof {
            lemma_bucket_replaced(old(self).events, self.events, index as int, Seq::empty());
        }
        self.run_bucket(&bucket, data, catalog);
        let ghost queue = self@;
        let ghost queued = self.global;
        let mut lasting: Vec<Ability> = Vec::new();
        core::mem::swap(&mut lasting, &mut self.global[index]);
        let ghost emptied = self.global;
        let kept = run_lasting(&lasting, data, catalog);
        self.global[index] = kept;
        proof {
            lemma_bucket_replaced(emptied, self.global, index as int, bucket_view(kept));
            lemma_bucket_replaced(emptied, queued, index as int, queue.global[index as int]);
            assert(buckets_view(queued) =~= queue.global);
            assert(self@.global =~= queue.global.update(index as int, bucket_view(kept)));
        }
    }

    /// Looks again at the cancels of the first checkpoint before the fight
    /// that are still queued, and says whether that changed anything.
    pub fn check_cancels(&self, data: &mut BattleData) -> (changed: bool)
        requires
            self@.wf(),
            old(data).placed(),
        ensures
            (changed, *final(data)) == spec_check_bucket(
                self@.events[EventTime::PRE4.spec_index()],
                self@.events[EventTime::PRE4.spec_index()].len() as int,
                *old(data),
            ),
            !changed ==> *final(data) == *old(data),
            final(data).placed(),
    {
        proof {
            lemma_check_cancels_settles(
                self@.events[EventTime::PRE4.spec_index()],
                self@.events[EventTime::PRE4.spec_index()].len() as int,
                *data,
            );
        }
        let index = EventTime::PRE4.index();
        let mut changed = false;
        let mut k: usize = 0;
        while k < self.events[index].len()
            invariant
                index == EventTime::PRE4.spec_index(),
                self@.wf(),
                k <= self.events[index as int].len(),
                data.placed(),
                (changed, *data) == spec_check_bucket(self@.events[index as int], k as int, *old(data)),
            decreases self.events[index as int].len() - k,
        {
            let ability = self.events[index][k];
            assert(self@.events[index as int][k as int] == ability@);
            if crate::ability::modifiers_len(&ability.modifiers) > 0 {
                match crate::ability::modifier_at(&ability.modifiers, 0) {
                    Some(Modifier::Cancel(modifier)) => {
                        let mut modifier: CancelModifier = modifier;
                        match modifier.applied {
                            Some(applied) => {
                                let card = data.acting_card();
                                let mismatch = match ability.ability_type {
                                    AbilityType::Ability => card.ability.is_blocked() == applied,
                                    AbilityType::Bonus => card.bonus.is_blocked() == applied,
                                    _ => false,
                                };
                                if mismatch {
                                    if applied {
                                        modifier.undo(data);
                                    } else {
                                        modifier.apply(data);
                                    }
                                    changed = true;
                                }
                            },
                            None => {},
                        }
                    },
                    _ => {},
                }
            }
            k += 1;
        }
        changed
    }

    /// Runs the checkpoint at the start of a round.
    pub fn execute_start(&mut self, data: &mut BattleData, catalog: &Catalog)
        requires
            old(self)@.wf(),
            old(data).wf(*catalog),
        ensures
            (final(self)@, *final(data)) == old(self)@.spec_execute(
                EventTime::START,
                *old(data),
                *catalog,
            ),
            final(self)@.wf(),
            final(data).wf(*catalog),
    {
        self.execute(EventTime::START, data, catalog);
    }

    /// Runs the four checkpoints after the attacks were computed, in order.
    pub fn execute_post(&mut self, data: &mut BattleData, catalog: &Catalog)
        requires
            old(self)@.wf(),
            old(data).wf(*catalog),
        ensures
            (final(self)@, *final(data)) == old(self)@.spec_execute_post(*old(data), *catalog),
            final(self)@.wf(),
            final(data).wf(*catalog),
    {
        self.execute(EventTime::POST1, data, catalog);
        self.execute(EventTime::POST2, data, catalog);
        self.execute(EventTime::POST3, data, catalog);
        self.execute(EventTime::POST4, data, catalog);
    }

    /// Runs the checkpoint at the end of a round.
    pub fn execute_end(&mut self, data: &mut BattleData, catalog: &Catalog)
        requires
            old(self)@.wf(),
            old(data).wf(*catalog),
        ensures
            (final(self)@, *final(data)) == old(self)@.spec_execute(
                EventTime::END,
                *old(data),
                *catalog,
            ),
            final(self)@.wf(),
            final(data).wf(*catalog),
    {
        self.execute(EventTime::END, data, catalog);
    }

    /// Takes every ability of the round out of the queue; the lasting ones
    /// stay.
    pub fn clear(&mut self)
        requires
            old(self)@.wf(),
        ensures
            final(self)@ == old(self)@.spec_cleared(),
            final(self)@.wf(),
            final(self)@.is_idle(),
    {
        let mut i: usize = 0;
        while i < 10
            invariant
                i <= 10,
                self.events.len() == 10,
                self.global == old(self).global,
                forall|j: int| 0 <= j < i ==> (#[trigger] self.events[j])@.len() == 0,
            decreases 10 - i,
        {
            self.events[i].clear();
            i += 1;
        }
        assert forall|j: int| 0 <= j < 10 implies (#[trigger] self@.events[j]) =~= Seq::<
            AbilityView,
        >::empty() by {
            assert(self.events[j]@.len() == 0);
        }
        assert(self@.events =~= old(self)@.spec_cleared().events);
    }
}

/// How many abilities wait in the first `n` buckets.
pub open spec fn spec_waiting_in(buckets: Seq<Seq<AbilityView>>, n: int) -> int
    decreases n,
{
    if n <= 0 {
        0
    } else {
        spec_waiting_in(buckets, n - 1) + buckets[n - 1].len()
    }
}

/// How many abilities of the round wait in a queue.
#[verifier::opaque]
pub open spec fn spec_waiting(queue: EventsView) -> int {
    spec_waiting_in(queue.events, queue.events.len() as int)
}

/// Replacing a bucket changes the number of waiting abilities by the
/// difference of the lengths.
pub proof fn lemma_waiting_replaced(
    buckets: Seq<Seq<AbilityView>>,
    i: int,
    bucket: Seq<AbilityView>,
    n: int,
)
    requires
        0 <= i < buckets.len(),
        0 <= n <= buckets.len(),
    ensures
        spec_waiting_in(buckets.update(i, bucket), n) == spec_waiting_in(buckets, n) + if i < n {
            bucket.len() - buckets[i].len()
        } else {
            0
        },
        spec_waiting_in(buckets, n) >= 0,
    decreases n,
{
    if n > 0 {
        lemma_waiting_replaced(buckets, i, bucket, n - 1);
    }
}

/// In a queue in which no ability of the round waits, none is counted.
pub proof fn lemma_waiting_idle(queue: EventsView, n: int)
    requires
        queue.is_idle(),
        0 <= n <= queue.events.len(),
    ensures
        spec_waiting_in(queue.events, n) == 0,
        n == queue.events.len() ==> spec_waiting(queue) == 0,
    decreases n,
{
    reveal(spec_waiting);
    if n > 0 {
        lemma_waiting_idle(queue, n - 1);
    }
}

/// Queueing an ability makes at most one more wait; queueing one among the
/// lasting abilities makes no more wait.
pub proof fn lemma_add_waiting(queue: EventsView, ability: AbilityView)
    requires
        queue.wf(),
    ensures
        spec_waiting(queue) <= spec_waiting(queue.spec_add(ability)) <= spec_waiting(queue) + 1,
        spec_waiting(queue.spec_add_global(ability)) == spec_waiting(queue),
{
    reveal(spec_waiting);
    if ability.is_timed() {
        let i = ability.event_time().spec_index();
        lemma_waiting_replaced(queue.events, i, queue.events[i].push(ability), 10);
    }
}

/// Running a bucket that has left the queue makes at most as many abilities
/// wait as were run.
pub proof fn lemma_run_bucket_waiting(
    queue: EventsView,
    bucket: Seq<AbilityView>,
    n: int,
    data: BattleData,
    catalog: Catalog,
)
    requires
        queue.wf(),
        data.wf(catalog),
        0 <= n <= bucket.len(),
    ensures
        spec_waiting(queue.spec_run_bucket(bucket, n, data, catalog).0) <= spec_waiting(queue) + n,
    decreases n,
{
    if n > 0 {
        lemma_run_bucket_waiting(queue, bucket, n - 1, data, catalog);
        lemma_run_bucket_keeps(queue, bucket, n - 1, data, catalog);
        let (before_queue, before) = queue.spec_run_bucket(bucket, n - 1, data, catalog);
        match bucket[n - 1].spec_apply(before, catalog).spawned {
            Some(ability) => lemma_add_waiting(before_queue, ability@),
            None => {},
        }
    }
}

/// A checkpoint leaves no more abilities of the round waiting than waited
/// before it.
pub proof fn lemma_execute_waiting(
    queue: EventsView,
    time: EventTime,
    data: BattleData,
    catalog: Catalog,
)
    requires
        queue.wf(),
        data.wf(catalog),
    ensures
        spec_waiting(queue.spec_execute(time, data, catalog).0) <= spec_waiting(queue),
{
    let i = time.spec_index();
    let bucket = queue.events[i];
    let drained = EventsView { events: queue.events.update(i, Seq::empty()), ..queue };
    assert(spec_waiting(drained) == spec_waiting(queue) - bucket.len()) by {
        reveal(spec_waiting);
        lemma_waiting_replaced(queue.events, i, Seq::empty(), 10);
    }
    lemma_run_bucket_waiting(drained, bucket, bucket.len() as int, data, catalog);
    let after = drained.spec_run_bucket(bucket, bucket.len() as int, data, catalog).0;
    assert(spec_waiting(queue.spec_execute(time, data, catalog).0) == spec_waiting(after)) by {
        reveal(spec_waiting);
    }
}

} // verus!
