use vstd::prelude::*;
use crate::ability::{lemma_run_keeps_wf, AbilityView};
use crate::battle::{
    lemma_add_keeps_wf, lemma_check_bucket_keeps, lemma_execute_keeps, lemma_run_bucket_keeps,
    lemma_run_global_keeps, spec_check_bucket, spec_check_cancel, spec_run_global, BattleData,
    EventsView,
};
use crate::card::{AttackStat, Card, CardStat};
use crate::catalog::Catalog;
use crate::game::{
    lemma_after_keeps, lemma_arming_keeps, lemma_battle_keeps_wf, lemma_before_keeps,
    lemma_both_keeps, lemma_check_keeps, lemma_fight_keeps, lemma_played_keeps, spec_attacking,
    spec_first_wins, spec_furious, spec_hurt, GameView, Selection, Stage,
};
use crate::modifiers::{
    self, lemma_infiltrated, spec_infiltrated, BasicModifier, CancelModifier, CopyModifier,
    EventTime, Exchange, ExchangeModifier, Modifier, ProtectionModifier, Stat,
};
use crate::types::Clan;

verus! {

/// What a player has and a round may take: pillz or life.
pub enum Resource {
    Pillz,
    Life,
}

/// Whether a modifier leaves a resource of the players alone: pillz, where it
/// is no recovery and no basic modifier of pillz; life, where it is no basic
/// modifier of life. With `closed` it takes over no bonus from another card
/// of the hand either.
pub open spec fn spec_quiet_modifier(modifier: Modifier, closed: bool, what: Resource) -> bool {
    match modifier {
        Modifier::Basic(inner) => match what {
            Resource::Pillz => inner.stat != Stat::Pillz,
            Resource::Life => inner.stat != Stat::Life,
        },
        Modifier::Recover(_) => what == Resource::Life,
        Modifier::Copy(inner) => !closed || inner.copy != modifiers::Copy::Infiltrate,
        _ => true,
    }
}

/// Whether a modifier leaves the damage of the cards alone.
pub open spec fn spec_gentle_modifier(modifier: Modifier) -> bool {
    match modifier {
        Modifier::Basic(inner) => inner.stat != Stat::Damage,
        Modifier::Recover(_) => true,
        Modifier::Copy(inner) => inner.copy != modifiers::Copy::Damage,
        Modifier::Exchange(inner) => inner.ex == Exchange::Power || inner.ex
            == Exchange::ImposePower,
        _ => true,
    }
}

/// Whether every modifier of a list leaves the resource alone.
pub open spec fn spec_quiet_slots(
    slots: Seq<Option<Modifier>>,
    closed: bool,
    what: Resource,
) -> bool {
    forall|i: int|
        0 <= i < slots.len() ==> ((#[trigger] slots[i]) matches Some(m)
            ==> spec_quiet_modifier(m, closed, what))
}

/// Whether every modifier of a list leaves the damage of the cards alone.
pub open spec fn spec_gentle_slots(slots: Seq<Option<Modifier>>) -> bool {
    forall|i: int|
        0 <= i < slots.len() ==> ((#[trigger] slots[i]) matches Some(m) ==> spec_gentle_modifier(
            m,
        ))
}

/// Whether an ability leaves the resource alone. For life it leaves damage
/// alone too where it acts at the end of the round, after the fight.
pub open spec fn spec_quiet_ability(ability: AbilityView, closed: bool, what: Resource) -> bool {
    &&& spec_quiet_slots(ability.modifiers, closed, what)
    &&& (what == Resource::Life && ability.is_timed() && ability.event_time() == EventTime::END
        ==> spec_gentle_slots(ability.modifiers))
}

/// Whether every ability of a bucket leaves the resource alone.
pub open spec fn spec_quiet_bucket(bucket: Seq<AbilityView>, closed: bool, what: Resource) -> bool {
    forall|k: int| 0 <= k < bucket.len()
        ==> spec_quiet_slots((#[trigger] bucket[k]).modifiers, closed, what)
}

/// Whether every ability of a bucket leaves the damage of the cards alone.
pub open spec fn spec_gentle_bucket(bucket: Seq<AbilityView>) -> bool {
    forall|k: int| 0 <= k < bucket.len() ==> spec_gentle_slots((#[trigger] bucket[k]).modifiers)
}

/// Whether every waiting ability leaves the resource alone and, for life,
/// those that wait for the end of the round damage too.
pub open spec fn spec_quiet_queue(queue: EventsView, closed: bool, what: Resource) -> bool {
    &&& forall|i: int|
        0 <= i < queue.events.len() ==> spec_quiet_bucket(#[trigger] queue.events[i], closed, what)
    &&& forall|i: int|
        0 <= i < queue.global.len() ==> spec_quiet_bucket(#[trigger] queue.global[i], closed, what)
    &&& what == Resource::Life ==> spec_gentle_bucket(queue.events[9])
    &&& what == Resource::Life ==> spec_gentle_bucket(queue.global[9])
}

/// Whether the ability that the catalog defines under `id` is quiet.
pub open spec fn spec_quiet_id(catalog: Catalog, id: u32, closed: bool, what: Resource) -> bool {
    spec_quiet_ability(catalog.ability(id)@, closed, what)
}

/// Whether the abilities that can come into play in a round are quiet: the
/// ability and the bonus of both cards in play and, unless `closed`, the
/// bonus of every card of both hands, which a card that infiltrates may take
/// over.
pub open spec fn spec_quiet_data(
    data: BattleData,
    catalog: Catalog,
    closed: bool,
    what: Resource,
) -> bool {
    &&& spec_quiet_id(catalog, data.acting().ability_id, closed, what)
    &&& spec_quiet_id(catalog, data.acting().bonus_id, closed, what)
    &&& spec_quiet_id(catalog, data.opposing().ability_id, closed, what)
    &&& spec_quiet_id(catalog, data.opposing().bonus_id, closed, what)
    &&& !closed ==> forall|i: int|
        0 <= i < 4 ==> spec_quiet_id(
            catalog,
            (#[trigger] data.hand.cards[i]).bonus_id,
            closed,
            what,
        )
    &&& !closed ==> forall|i: int|
        0 <= i < 4 ==> spec_quiet_id(
            catalog,
            (#[trigger] data.opp_hand.cards[i]).bonus_id,
            closed,
            what,
        )
}

/// Whether both players have as much of the resource in two rounds.
pub open spec fn spec_same_resources(a: BattleData, b: BattleData, what: Resource) -> bool {
    match what {
        Resource::Pillz => a.player.pillz == b.player.pillz && a.opp.pillz == b.opp.pillz,
        Resource::Life => a.player.life == b.player.life && a.opp.life == b.opp.life,
    }
}

/// Whether both cards in play have the same damage in two rounds.
pub open spec fn spec_same_damage(a: BattleData, b: BattleData) -> bool {
    &&& a.acting().damage.value == b.acting().damage.value
    &&& a.opposing().damage.value == b.opposing().damage.value
}

/// Replacing a card in play by one whose ability and bonus are quiet keeps
/// the round quiet, and leaves the players and the other card in play as they
/// are.
pub proof fn lemma_quiet_with_card(
    data: BattleData,
    catalog: Catalog,
    opp: bool,
    card: Card,
    closed: bool,
    what: Resource,
)
    requires
        data.card < 4,
        data.opp_card < 4,
        spec_quiet_data(data, catalog, closed, what),
        spec_quiet_id(catalog, card.ability_id, closed, what),
        spec_quiet_id(catalog, card.bonus_id, closed, what),
    ensures
        spec_quiet_data(data.spec_with_card(opp, card), catalog, closed, what),
        spec_same_resources(data, data.spec_with_card(opp, card), what),
        data.spec_with_card(opp, card).card == data.card,
        data.spec_with_card(opp, card).opp_card == data.opp_card,
        data.spec_with_card(opp, card).acting() == if opp {
            data.acting()
        } else {
            card
        },
        data.spec_with_card(opp, card).opposing() == if opp {
            card
        } else {
            data.opposing()
        },
{
    let after = data.spec_with_card(opp, card);
    if !closed {
        assert forall|i: int| 0 <= i < 4 implies spec_quiet_id(
            catalog,
            (#[trigger] after.hand.cards[i]).bonus_id,
            closed,
            what,
        ) by {
            assert(spec_quiet_id(catalog, data.hand.cards[i].bonus_id, closed, what));
        }
        assert forall|i: int| 0 <= i < 4 implies spec_quiet_id(
            catalog,
            (#[trigger] after.opp_hand.cards[i]).bonus_id,
            closed,
            what,
        ) by {
            assert(spec_quiet_id(catalog, data.opp_hand.cards[i].bonus_id, closed, what));
        }
    }
}

/// A quiet round stays quiet when the sides change places.
pub proof fn lemma_quiet_mirrored(data: BattleData, catalog: Catalog, closed: bool, what: Resource)
    requires
        spec_quiet_data(data, catalog, closed, what),
    ensures
        spec_quiet_data(data.mirrored(), catalog, closed, what),
{
    if !closed {
        assert forall|i: int| 0 <= i < 4 implies spec_quiet_id(
            catalog,
            (#[trigger] data.mirrored().hand.cards[i]).bonus_id,
            closed,
            what,
        ) by {
            assert(spec_quiet_id(catalog, data.opp_hand.cards[i].bonus_id, closed, what));
        }
        assert forall|i: int| 0 <= i < 4 implies spec_quiet_id(
            catalog,
            (#[trigger] data.mirrored().opp_hand.cards[i]).bonus_id,
            closed,
            what,
        ) by {
            assert(spec_quiet_id(catalog, data.hand.cards[i].bonus_id, closed, what));
        }
    }
}

/// What a quiet modifier does in a quiet round.
pub open spec fn spec_quietly(
    before: BattleData,
    after: BattleData,
    catalog: Catalog,
    gentle: bool,
    closed: bool,
    what: Resource,
) -> bool {
    &&& spec_same_resources(before, after, what)
    &&& spec_quiet_data(after, catalog, closed, what)
    &&& (gentle ==> spec_same_damage(before, after))
}

/// A quiet basic modifier leaves the resource as it is and the round
/// quiet; one that is not of damage leaves damage as it is too.
pub proof fn lemma_quiet_basic(
    inner: BasicModifier,
    data: BattleData,
    catalog: Catalog,
    closed: bool,
    what: Resource,
)
    requires
        data.wf(catalog),
        spec_quiet_modifier(Modifier::Basic(inner), closed, what),
        spec_quiet_data(data, catalog, closed, what),
    ensures
        spec_quietly(
            data,
            inner.spec_apply(data),
            catalog,
            spec_gentle_modifier(Modifier::Basic(inner)),
            closed,
            what,
        ),
{
    if inner.spec_can_apply(data) {
        let value = inner.spec_modify(data.spec_stat(inner.opp, inner.stat), data);
        let card = if inner.opp {
            data.opposing()
        } else {
            data.acting()
        };
        match inner.stat {
            Stat::Power => lemma_quiet_with_card(
                data,
                catalog,
                inner.opp,
                Card { power: CardStat { value: value as u8, ..card.power }, ..card },
                closed,
                what,
            ),
            Stat::Damage => lemma_quiet_with_card(
                data,
                catalog,
                inner.opp,
                Card { damage: CardStat { value: value as u8, ..card.damage }, ..card },
                closed,
                what,
            ),
            Stat::Attack => lemma_quiet_with_card(
                data,
                catalog,
                inner.opp,
                Card { attack: AttackStat { value: value as u16, ..card.attack }, ..card },
                closed,
                what,
            ),
            _ => {},
        }
    }
}

/// A cancel, made or taken back, leaves the resource and damage as they are
/// and the round quiet.
pub proof fn lemma_quiet_cancel(
    inner: CancelModifier,
    data: BattleData,
    catalog: Catalog,
    closed: bool,
    what: Resource,
)
    requires
        data.wf(catalog),
        spec_quiet_data(data, catalog, closed, what),
    ensures
        spec_quietly(data, inner.spec_apply(data).1, catalog, true, closed, what),
        spec_quietly(data, inner.spec_undo(data).1, catalog, true, closed, what),
{
    let card = data.opposing();
    lemma_quiet_with_card(
        data,
        catalog,
        true,
        card.spec_with_cancel_attr(inner.cancel, card.spec_cancel_attr(inner.cancel).spec_cancel()),
        closed,
        what,
    );
    lemma_quiet_with_card(
        data,
        catalog,
        true,
        card.spec_with_cancel_attr(
            inner.cancel,
            card.spec_cancel_attr(inner.cancel).spec_remove_cancel(),
        ),
        closed,
        what,
    );
}

/// A copy leaves the resource as it is and the round quiet, and brings
/// only a quiet ability into play; one that does not copy damage leaves
/// damage as it is too.
pub proof fn lemma_quiet_copy(
    inner: CopyModifier,
    data: BattleData,
    catalog: Catalog,
    closed: bool,
    what: Resource,
)
    requires
        data.wf(catalog),
        spec_quiet_modifier(Modifier::Copy(inner), closed, what),
        spec_quiet_data(data, catalog, closed, what),
    ensures
        spec_quietly(
            data,
            inner.spec_apply(data, catalog).0,
            catalog,
            spec_gentle_modifier(Modifier::Copy(inner)),
            closed,
            what,
        ),
        inner.spec_apply(data, catalog).1 matches Some(a) ==> spec_quiet_ability(a@, closed, what),
{
    let card = data.acting();
    let opp_card = data.opposing();
    match inner.copy {
        modifiers::Copy::Power => lemma_quiet_with_card(
            data,
            catalog,
            false,
            Card { power: CardStat { value: opp_card.power.base, ..card.power }, ..card },
            closed,
            what,
        ),
        modifiers::Copy::Damage => lemma_quiet_with_card(
            data,
            catalog,
            false,
            Card { damage: CardStat { value: opp_card.damage.base, ..card.damage }, ..card },
            closed,
            what,
        ),
        modifiers::Copy::Ability => lemma_quiet_with_card(
            data,
            catalog,
            false,
            Card { bonus: opp_card.ability, bonus_id: opp_card.ability_id, ..card },
            closed,
            what,
        ),
        modifiers::Copy::Bonus => lemma_quiet_with_card(
            data,
            catalog,
            false,
            Card { ability: opp_card.bonus, ability_id: opp_card.bonus_id, ..card },
            closed,
            what,
        ),
        modifiers::Copy::Infiltrate => {
            lemma_infiltrated(data, catalog, 0);
            if data.hand.oculus_clan != Clan::NoClan {
                match spec_infiltrated(data, catalog, 0) {
                    Some(i) => {
                        let source = data.hand.cards[i];
                        assert(spec_quiet_id(catalog, source.bonus_id, closed, what));
                        lemma_quiet_with_card(
                            data,
                            catalog,
                            false,
                            Card { bonus: source.bonus, bonus_id: source.bonus_id, ..card },
                            closed,
                            what,
                        );
                    },
                    None => {},
                }
            }
        },
    }
}

/// An exchange leaves the resource as it is and the round quiet; one of
/// power leaves damage as it is too.
pub proof fn lemma_quiet_exchange(
    inner: ExchangeModifier,
    data: BattleData,
    catalog: Catalog,
    closed: bool,
    what: Resource,
)
    requires
        data.wf(catalog),
        spec_quiet_data(data, catalog, closed, what),
    ensures
        spec_quietly(
            data,
            inner.spec_apply(data),
            catalog,
            spec_gentle_modifier(Modifier::Exchange(inner)),
            closed,
            what,
        ),
{
    let card = data.acting();
    let opp_card = data.opposing();
    let own_power = Card { power: CardStat { value: opp_card.power.base, ..card.power }, ..card };
    let opp_power = Card {
        power: CardStat { value: card.power.base, ..opp_card.power },
        ..opp_card
    };
    let own_damage = Card {
        damage: CardStat { value: opp_card.damage.base, ..card.damage },
        ..card
    };
    let opp_damage = Card {
        damage: CardStat { value: card.damage.base, ..opp_card.damage },
        ..opp_card
    };
    match inner.ex {
        Exchange::Power => {
            lemma_quiet_with_card(data, catalog, false, own_power, closed, what);
            lemma_quiet_with_card(
                data.with_acting(own_power),
                catalog,
                true,
                opp_power,
                closed,
                what,
            );
        },
        Exchange::Damage => {
            lemma_quiet_with_card(data, catalog, false, own_damage, closed, what);
            lemma_quiet_with_card(
                data.with_acting(own_damage),
                catalog,
                true,
                opp_damage,
                closed,
                what,
            );
        },
        Exchange::ImposePower => lemma_quiet_with_card(
            data,
            catalog,
            true,
            opp_power,
            closed,
            what,
        ),
        Exchange::ImposeDamage => lemma_quiet_with_card(
            data,
            catalog,
            true,
            opp_damage,
            closed,
            what,
        ),
    }
}

/// A protection leaves the resource and damage as they are and the round
/// quiet.
pub proof fn lemma_quiet_protection(
    inner: ProtectionModifier,
    data: BattleData,
    catalog: Catalog,
    closed: bool,
    what: Resource,
)
    requires
        data.wf(catalog),
        spec_quiet_data(data, catalog, closed, what),
    ensures
        spec_quietly(data, inner.spec_apply(data), catalog, true, closed, what),
{
    let own = data.acting().spec_protected(inner.prot);
    let other = data.opposing().spec_protected(inner.prot);
    lemma_quiet_with_card(data, catalog, false, own, closed, what);
    lemma_quiet_with_card(data.with_acting(own), catalog, true, other, closed, what);
}

/// A quiet modifier leaves the resource as it is and the round quiet,
/// stays what it is, and brings only a quiet ability into play; a gentle one
/// leaves damage as it is too.
pub proof fn lemma_quiet_modifier(
    modifier: Modifier,
    data: BattleData,
    catalog: Catalog,
    closed: bool,
    what: Resource,
)
    requires
        data.wf(catalog),
        spec_quiet_modifier(modifier, closed, what),
        spec_quiet_data(data, catalog, closed, what),
    ensures
        spec_quietly(
            data,
            modifier.spec_apply(data, catalog).data,
            catalog,
            spec_gentle_modifier(modifier),
            closed,
            what,
        ),
        spec_quiet_modifier(modifier.spec_apply(data, catalog).modifier, closed, what),
        spec_gentle_modifier(modifier) ==> spec_gentle_modifier(
            modifier.spec_apply(data, catalog).modifier,
        ),
        modifier.spec_apply(data, catalog).spawned matches Some(a)
            ==> spec_quiet_ability(a@, closed, what),
{
    match modifier {
        Modifier::Basic(inner) => lemma_quiet_basic(inner, data, catalog, closed, what),
        Modifier::Cancel(inner) => lemma_quiet_cancel(inner, data, catalog, closed, what),
        Modifier::Copy(inner) => lemma_quiet_copy(inner, data, catalog, closed, what),
        Modifier::Exchange(inner) => lemma_quiet_exchange(inner, data, catalog, closed, what),
        Modifier::Protection(inner) => lemma_quiet_protection(inner, data, catalog, closed, what),
        Modifier::Recover(_) => {},
    }
}

/// Quiet modifiers, applied in order, leave the resource as it is and
/// the round quiet, stay quiet, and bring only a quiet ability into play;
/// gentle ones stay gentle and leave damage as it is too.
pub proof fn lemma_quiet_run(
    ability: AbilityView,
    data: BattleData,
    catalog: Catalog,
    n: int,
    closed: bool,
    what: Resource,
)
    requires
        data.wf(catalog),
        spec_quiet_slots(ability.modifiers, closed, what),
        spec_quiet_data(data, catalog, closed, what),
        n <= ability.modifiers.len(),
    ensures
        spec_quietly(
            data,
            ability.spec_run(data, catalog, n).data,
            catalog,
            spec_gentle_slots(ability.modifiers),
            closed,
            what,
        ),
        spec_quiet_slots(ability.spec_run(data, catalog, n).ability.modifiers, closed, what),
        spec_gentle_slots(ability.modifiers) ==> spec_gentle_slots(
            ability.spec_run(data, catalog, n).ability.modifiers,
        ),
        ability.spec_run(data, catalog, n).spawned matches Some(a)
            ==> spec_quiet_ability(a@, closed, what),
    decreases n,
{
    if n > 0 {
        lemma_quiet_run(ability, data, catalog, n - 1, closed, what);
        lemma_run_keeps_wf(ability, data, catalog, n - 1);
        let before = ability.spec_run(data, catalog, n - 1);
        match before.ability.modifiers[n - 1] {
            Some(modifier) => {
                lemma_quiet_modifier(modifier, before.data, catalog, closed, what);
                let out = modifier.spec_apply(before.data, catalog);
                let slots = before.ability.modifiers.update(n - 1, Some(out.modifier));
                assert forall|i: int| 0 <= i < slots.len() implies
                    ((#[trigger] slots[i]) matches Some(
                    m,
                ) ==> spec_quiet_modifier(m, closed, what)) by {
                    if i != n - 1 {
                        assert(slots[i] == before.ability.modifiers[i]);
                    }
                }
                if spec_gentle_slots(ability.modifiers) {
                    assert(spec_gentle_modifier(modifier));
                    assert forall|i: int| 0 <= i < slots.len() implies
                        ((#[trigger] slots[i]) matches Some(
                        m,
                    ) ==> spec_gentle_modifier(m)) by {
                        if i != n - 1 {
                            assert(slots[i] == before.ability.modifiers[i]);
                        }
                    }
                }
            },
            None => {},
        }
    }
}

/// A quiet ability leaves the resource as it is and the round quiet,
/// stays quiet, and brings only a quiet ability into play; a gentle one stays
/// gentle and leaves damage as it is too.
pub proof fn lemma_quiet_apply(
    ability: AbilityView,
    data: BattleData,
    catalog: Catalog,
    closed: bool,
    what: Resource,
)
    requires
        data.wf(catalog),
        spec_quiet_slots(ability.modifiers, closed, what),
        spec_quiet_data(data, catalog, closed, what),
    ensures
        spec_quietly(
            data,
            ability.spec_apply(data, catalog).data,
            catalog,
            spec_gentle_slots(ability.modifiers),
            closed,
            what,
        ),
        spec_quiet_slots(ability.spec_apply(data, catalog).ability.modifiers, closed, what),
        spec_gentle_slots(ability.modifiers) ==> spec_gentle_slots(
            ability.spec_apply(data, catalog).ability.modifiers,
        ),
        ability.spec_apply(data, catalog).spawned matches Some(a)
            ==> spec_quiet_ability(a@, closed, what),
{
    let (asked, can) = ability.spec_can_apply(data, catalog);
    assert(asked.modifiers == ability.modifiers);
    if can {
        lemma_quiet_run(asked, data, catalog, asked.modifiers.len() as int, closed, what);
    }
}

/// Queueing a quiet ability keeps a queue quiet.
pub proof fn lemma_quiet_add(queue: EventsView, ability: AbilityView, closed: bool, what: Resource)
    requires
        queue.wf(),
        spec_quiet_queue(queue, closed, what),
        spec_quiet_ability(ability, closed, what),
    ensures
        spec_quiet_queue(queue.spec_add(ability), closed, what),
        spec_quiet_queue(queue.spec_add_global(ability), closed, what),
{
    let added = queue.spec_add(ability);
    assert forall|i: int| 0 <= i < added.events.len() implies spec_quiet_bucket(
        #[trigger] added.events[i],
        closed,
        what,
    ) by {
        assert(spec_quiet_bucket(queue.events[i], closed, what));
    }
    assert forall|i: int| 0 <= i < added.global.len() implies spec_quiet_bucket(
        #[trigger] added.global[i],
        closed,
        what,
    ) by {
        assert(spec_quiet_bucket(queue.global[i], closed, what));
    }
    let lasting = queue.spec_add_global(ability);
    assert forall|i: int| 0 <= i < lasting.events.len() implies spec_quiet_bucket(
        #[trigger] lasting.events[i],
        closed,
        what,
    ) by {
        assert(spec_quiet_bucket(queue.events[i], closed, what));
    }
    assert forall|i: int| 0 <= i < lasting.global.len() implies spec_quiet_bucket(
        #[trigger] lasting.global[i],
        closed,
        what,
    ) by {
        assert(spec_quiet_bucket(queue.global[i], closed, what));
    }
}

/// Running a quiet bucket on a quiet queue in a quiet round leaves the
/// resource as it is and the queue and the round quiet; running a gentle one
/// leaves damage as it is too.
pub proof fn lemma_quiet_bucket(
    queue: EventsView,
    bucket: Seq<AbilityView>,
    n: int,
    data: BattleData,
    catalog: Catalog,
    closed: bool,
    what: Resource,
)
    requires
        queue.wf(),
        data.wf(catalog),
        spec_quiet_queue(queue, closed, what),
        spec_quiet_bucket(bucket, closed, what),
        spec_quiet_data(data, catalog, closed, what),
        n <= bucket.len(),
    ensures
        spec_quietly(
            data,
            queue.spec_run_bucket(bucket, n, data, catalog).1,
            catalog,
            spec_gentle_bucket(bucket),
            closed,
            what,
        ),
        spec_quiet_queue(queue.spec_run_bucket(bucket, n, data, catalog).0, closed, what),
    decreases n,
{
    if n > 0 {
        lemma_quiet_bucket(queue, bucket, n - 1, data, catalog, closed, what);
        lemma_run_bucket_keeps(queue, bucket, n - 1, data, catalog);
        let (before_queue, before) = queue.spec_run_bucket(bucket, n - 1, data, catalog);
        lemma_quiet_apply(bucket[n - 1], before, catalog, closed, what);
        match bucket[n - 1].spec_apply(before, catalog).spawned {
            Some(ability) => lemma_quiet_add(before_queue, ability@, closed, what),
            None => {},
        }
    }
}

/// Running quiet lasting abilities in a quiet round leaves the resource as
/// it is, the round quiet and those that stay quiet; gentle ones stay
/// gentle and leave damage as it is too.
pub proof fn lemma_quiet_global(
    bucket: Seq<AbilityView>,
    n: int,
    data: BattleData,
    catalog: Catalog,
    closed: bool,
    what: Resource,
)
    requires
        data.wf(catalog),
        spec_quiet_bucket(bucket, closed, what),
        spec_quiet_data(data, catalog, closed, what),
        n <= bucket.len(),
    ensures
        spec_quietly(
            data,
            spec_run_global(bucket, n, data, catalog).1,
            catalog,
            spec_gentle_bucket(bucket),
            closed,
            what,
        ),
        spec_quiet_bucket(spec_run_global(bucket, n, data, catalog).0, closed, what),
        spec_gentle_bucket(bucket) ==> spec_gentle_bucket(
            spec_run_global(bucket, n, data, catalog).0,
        ),
    decreases n,
{
    if n > 0 {
        lemma_quiet_global(bucket, n - 1, data, catalog, closed, what);
        lemma_run_global_keeps(bucket, n - 1, data, catalog);
        let (kept, before) = spec_run_global(bucket, n - 1, data, catalog);
        lemma_quiet_apply(bucket[n - 1], before, catalog, closed, what);
    }
}

/// A checkpoint on a quiet queue in a quiet round leaves the resource as
/// it is and the queue and the round quiet; the one at the end of the
/// round leaves damage as it is too.
pub proof fn lemma_quiet_execute(
    queue: EventsView,
    time: EventTime,
    data: BattleData,
    catalog: Catalog,
    closed: bool,
    what: Resource,
)
    requires
        queue.wf(),
        data.wf(catalog),
        spec_quiet_queue(queue, closed, what),
        spec_quiet_data(data, catalog, closed, what),
    ensures
        spec_quietly(
            data,
            queue.spec_execute(time, data, catalog).1,
            catalog,
            what == Resource::Life && time == EventTime::END,
            closed,
            what,
        ),
        spec_quiet_queue(queue.spec_execute(time, data, catalog).0, closed, what),
{
    let i = time.spec_index();
    let bucket = queue.events[i];
    let drained = EventsView { events: queue.events.update(i, Seq::empty()), ..queue };
    assert(spec_quiet_bucket(bucket, closed, what));
    assert(spec_quiet_queue(drained, closed, what)) by {
        assert forall|j: int| 0 <= j < drained.events.len() implies spec_quiet_bucket(
            #[trigger] drained.events[j],
            closed,
            what,
        ) by {
            assert(spec_quiet_bucket(queue.events[j], closed, what));
        }
    }
    lemma_quiet_bucket(drained, bucket, bucket.len() as int, data, catalog, closed, what);
    lemma_run_bucket_keeps(drained, bucket, bucket.len() as int, data, catalog);
    let (after_queue, before) = drained.spec_run_bucket(bucket, bucket.len() as int, data, catalog);
    let lasting = after_queue.global[i];
    assert(spec_quiet_bucket(lasting, closed, what));
    lemma_quiet_global(lasting, lasting.len() as int, before, catalog, closed, what);
    let (kept, after) = spec_run_global(lasting, lasting.len() as int, before, catalog);
    let end = EventsView { global: after_queue.global.update(i, kept), ..after_queue };
    assert forall|j: int| 0 <= j < end.global.len() implies spec_quiet_bucket(
        #[trigger] end.global[j],
        closed,
        what,
    ) by {
        assert(spec_quiet_bucket(after_queue.global[j], closed, what));
    }
    assert forall|j: int| 0 <= j < end.events.len() implies spec_quiet_bucket(
        #[trigger] end.events[j],
        closed,
        what,
    ) by {
        assert(spec_quiet_bucket(after_queue.events[j], closed, what));
    }
}

/// Looking again at one cancel leaves the resource and damage as they are and
/// the round quiet.
pub proof fn lemma_quiet_check_one(
    ability: AbilityView,
    data: BattleData,
    catalog: Catalog,
    closed: bool,
    what: Resource,
)
    requires
        data.wf(catalog),
        spec_quiet_data(data, catalog, closed, what),
    ensures
        spec_quietly(data, spec_check_cancel(ability, data).1, catalog, true, closed, what),
{
    if ability.modifiers.len() > 0 {
        match ability.modifiers[0] {
            Some(Modifier::Cancel(modifier)) => {
                lemma_quiet_cancel(modifier, data, catalog, closed, what);
            },
            _ => {},
        }
    }
}

/// Looking again at the cancels leaves the resource and damage as they are and
/// the round quiet.
pub proof fn lemma_quiet_check(
    bucket: Seq<AbilityView>,
    n: int,
    data: BattleData,
    catalog: Catalog,
    closed: bool,
    what: Resource,
)
    requires
        data.wf(catalog),
        spec_quiet_data(data, catalog, closed, what),
        n <= bucket.len(),
    ensures
        spec_quietly(data, spec_check_bucket(bucket, n, data).1, catalog, true, closed, what),
    decreases n,
{
    if n > 0 {
        lemma_quiet_check(bucket, n - 1, data, catalog, closed, what);
        lemma_check_bucket_keeps(bucket, n - 1, data, catalog);
        lemma_quiet_check_one(
            bucket[n - 1],
            spec_check_bucket(bucket, n - 1, data).1,
            catalog,
            closed,
            what,
        );
    }
}

/// Whether both queues and the round of a stage are quiet.
pub open spec fn spec_quiet_stage(
    stage: Stage,
    catalog: Catalog,
    closed: bool,
    what: Resource,
) -> bool {
    &&& spec_quiet_queue(stage.events1, closed, what)
    &&& spec_quiet_queue(stage.events2, closed, what)
    &&& spec_quiet_data(stage.data, catalog, closed, what)
}

/// A checkpoint run by both sides of a quiet stage leaves the resource as
/// it is and the stage quiet; the one at the end of the round leaves damage
/// as it is too.
pub proof fn lemma_quiet_both(
    stage: Stage,
    time: EventTime,
    catalog: Catalog,
    closed: bool,
    what: Resource,
)
    requires
        stage.wf(catalog),
        spec_quiet_stage(stage, catalog, closed, what),
    ensures
        spec_same_resources(stage.data, stage.spec_both(time, catalog).data, what),
        what == Resource::Life && time == EventTime::END ==> spec_same_damage(
            stage.data,
            stage.spec_both(time, catalog).data,
        ),
        spec_quiet_stage(stage.spec_both(time, catalog), catalog, closed, what),
        stage.spec_both(time, catalog).wf(catalog),
{
    reveal(Stage::spec_both);
    lemma_both_keeps(stage, time, catalog);
    lemma_quiet_execute(stage.events1, time, stage.data, catalog, closed, what);
    lemma_execute_keeps(stage.events1, time, stage.data, catalog);
    let mid = stage.events1.spec_execute(time, stage.data, catalog).1;
    lemma_quiet_mirrored(mid, catalog, closed, what);
    lemma_quiet_execute(stage.events2, time, mid.mirrored(), catalog, closed, what);
    lemma_execute_keeps(stage.events2, time, mid.mirrored(), catalog);
    let end = stage.events2.spec_execute(time, mid.mirrored(), catalog).1;
    lemma_quiet_mirrored(end, catalog, closed, what);
}

/// Looking again at the cancels of both sides leaves the resource as it is
/// and the stage quiet.
pub proof fn lemma_quiet_settle(
    stage: Stage,
    times: nat,
    catalog: Catalog,
    closed: bool,
    what: Resource,
)
    requires
        stage.wf(catalog),
        spec_quiet_stage(stage, catalog, closed, what),
    ensures
        spec_same_resources(stage.data, stage.spec_settle(times).data, what),
        spec_quiet_stage(stage.spec_settle(times), catalog, closed, what),
        stage.spec_settle(times).wf(catalog),
    decreases times,
{
    if times > 0 {
        lemma_check_keeps(stage, catalog);
        let at = EventTime::PRE4.spec_index();
        let bucket1 = stage.events1.events[at];
        let bucket2 = stage.events2.events[at];
        lemma_quiet_check(bucket1, bucket1.len() as int, stage.data, catalog, closed, what);
        lemma_check_bucket_keeps(bucket1, bucket1.len() as int, stage.data, catalog);
        let mid = spec_check_bucket(bucket1, bucket1.len() as int, stage.data).1;
        lemma_quiet_mirrored(mid, catalog, closed, what);
        lemma_quiet_check(bucket2, bucket2.len() as int, mid.mirrored(), catalog, closed, what);
        let end = spec_check_bucket(bucket2, bucket2.len() as int, mid.mirrored()).1;
        lemma_quiet_mirrored(end, catalog, closed, what);
        let (changed, next) = stage.spec_check();
        if changed {
            lemma_quiet_settle(next, (times - 1) as nat, catalog, closed, what);
        }
    }
}

/// Fury and the attacks leave the resource as it is and the stage quiet.
pub proof fn lemma_quiet_arming(
    stage: Stage,
    fury1: bool,
    pillz1: u8,
    fury2: bool,
    pillz2: u8,
    catalog: Catalog,
    closed: bool,
    what: Resource,
)
    requires
        stage.wf(catalog),
        spec_quiet_stage(stage, catalog, closed, what),
    ensures
        spec_same_resources(
            stage.data,
            stage.spec_fury(fury1, fury2).spec_attacks(pillz1, pillz2).data,
            what,
        ),
        spec_quiet_stage(
            stage.spec_fury(fury1, fury2).spec_attacks(pillz1, pillz2),
            catalog,
            closed,
            what,
        ),
        stage.spec_fury(fury1, fury2).spec_attacks(pillz1, pillz2).wf(catalog),
        stage.spec_fury(fury1, fury2).spec_attacks(pillz1, pillz2).data.player_pillz_used
            == stage.data.player_pillz_used,
        stage.spec_fury(fury1, fury2).spec_attacks(pillz1, pillz2).data.opp_pillz_used
            == stage.data.opp_pillz_used,
{
    let data = stage.data;
    let own = data.acting();
    let other = data.opposing();
    lemma_arming_keeps(stage, fury1, pillz1, fury2, pillz2, catalog);
    lemma_quiet_with_card(data, catalog, false, spec_furious(own), closed, what);
    lemma_quiet_with_card(data, catalog, true, spec_furious(other), closed, what);
    lemma_quiet_with_card(
        data.with_acting(spec_furious(own)),
        catalog,
        true,
        spec_furious(other),
        closed,
        what,
    );
    let furious = stage.spec_fury(fury1, fury2);
    lemma_arming_keeps(furious, fury1, pillz1, fury2, pillz2, catalog);
    let own2 = furious.data.acting();
    let other2 = furious.data.opposing();
    lemma_quiet_with_card(furious.data, catalog, false, spec_attacking(own2, pillz1), closed, what);
    lemma_quiet_with_card(
        furious.data.with_acting(spec_attacking(own2, pillz1)),
        catalog,
        true,
        spec_attacking(other2, pillz2),
        closed,
        what,
    );
}

/// The stage at which the two cards meet in the fight: after the checkpoints
/// before the fight, fury, the attacks and the checkpoints after them.
pub open spec fn spec_meeting(
    stage: Stage,
    fury1: bool,
    pillz1: u8,
    fury2: bool,
    pillz2: u8,
    catalog: Catalog,
) -> Stage {
    stage.spec_before(catalog).spec_fury(fury1, fury2).spec_attacks(pillz1, pillz2).spec_after(
        catalog,
    )
}

/// Up to the fight a quiet stage leaves the resource as it is and stays
/// quiet.
pub proof fn lemma_quiet_meeting(
    stage: Stage,
    fury1: bool,
    pillz1: u8,
    fury2: bool,
    pillz2: u8,
    catalog: Catalog,
    closed: bool,
    what: Resource,
)
    requires
        stage.wf(catalog),
        spec_quiet_stage(stage, catalog, closed, what),
    ensures
        spec_same_resources(
            stage.data,
            spec_meeting(stage, fury1, pillz1, fury2, pillz2, catalog).data,
            what,
        ),
        spec_quiet_stage(
            spec_meeting(stage, fury1, pillz1, fury2, pillz2, catalog),
            catalog,
            closed,
            what,
        ),
        spec_meeting(stage, fury1, pillz1, fury2, pillz2, catalog).wf(catalog),
        spec_meeting(stage, fury1, pillz1, fury2, pillz2, catalog).data.player_pillz_used
            == stage.data.player_pillz_used,
        spec_meeting(stage, fury1, pillz1, fury2, pillz2, catalog).data.opp_pillz_used
            == stage.data.opp_pillz_used,
        spec_meeting(stage, fury1, pillz1, fury2, pillz2, catalog).data.card == stage.data.card,
        spec_meeting(stage, fury1, pillz1, fury2, pillz2, catalog).data.opp_card
            == stage.data.opp_card,
        spec_same_resources(stage.data, stage.spec_before(catalog).data, what),
        spec_same_resources(
            stage.spec_before(catalog).spec_fury(fury1, fury2).spec_attacks(pillz1, pillz2).data,
            spec_meeting(stage, fury1, pillz1, fury2, pillz2, catalog).data,
            what,
        ),
{
    let a = stage.spec_both(EventTime::START, catalog);
    let b = a.spec_both(EventTime::PRE4, catalog);
    let c = b.spec_settle(3);
    let d = c.spec_both(EventTime::PRE3, catalog);
    let e = d.spec_both(EventTime::PRE2, catalog);
    let f = e.spec_both(EventTime::PRE1, catalog);
    let h = f.spec_fury(fury1, fury2).spec_attacks(pillz1, pillz2);
    let i = h.spec_both(EventTime::POST1, catalog);
    let j = i.spec_both(EventTime::POST2, catalog);
    let k = j.spec_both(EventTime::POST3, catalog);
    let l = k.spec_both(EventTime::POST4, catalog);
    assert(a.wf(catalog) && spec_quiet_stage(a, catalog, closed, what)
        && spec_same_resources(stage.data, a.data, what))
        by {
        lemma_quiet_both(stage, EventTime::START, catalog, closed, what);
    }
    assert(b.wf(catalog) && spec_quiet_stage(b, catalog, closed, what)
        && spec_same_resources(a.data, b.data, what)) by {
        lemma_quiet_both(a, EventTime::PRE4, catalog, closed, what);
    }
    assert(c.wf(catalog) && spec_quiet_stage(c, catalog, closed, what)
        && spec_same_resources(b.data, c.data, what)) by {
        lemma_quiet_settle(b, 3, catalog, closed, what);
    }
    assert(d.wf(catalog) && spec_quiet_stage(d, catalog, closed, what)
        && spec_same_resources(c.data, d.data, what)) by {
        lemma_quiet_both(c, EventTime::PRE3, catalog, closed, what);
    }
    assert(e.wf(catalog) && spec_quiet_stage(e, catalog, closed, what)
        && spec_same_resources(d.data, e.data, what)) by {
        lemma_quiet_both(d, EventTime::PRE2, catalog, closed, what);
    }
    assert(f.wf(catalog) && spec_quiet_stage(f, catalog, closed, what)
        && spec_same_resources(e.data, f.data, what)) by {
        lemma_quiet_both(e, EventTime::PRE1, catalog, closed, what);
    }
    assert(f == stage.spec_before(catalog));
    assert(f.data.player_pillz_used == stage.data.player_pillz_used && f.data.opp_pillz_used
        == stage.data.opp_pillz_used && f.data.card == stage.data.card && f.data.opp_card
        == stage.data.opp_card) by {
        lemma_before_keeps(stage, catalog);
    }
    assert(h.wf(catalog) && spec_quiet_stage(h, catalog, closed, what)
        && spec_same_resources(f.data, h.data, what)
        && h.data.player_pillz_used == f.data.player_pillz_used && h.data.opp_pillz_used
        == f.data.opp_pillz_used && h.data.card == f.data.card && h.data.opp_card
        == f.data.opp_card) by {
        lemma_quiet_arming(f, fury1, pillz1, fury2, pillz2, catalog, closed, what);
        lemma_arming_keeps(f, fury1, pillz1, fury2, pillz2, catalog);
        lemma_arming_keeps(f.spec_fury(fury1, fury2), fury1, pillz1, fury2, pillz2, catalog);
    }
    assert(i.wf(catalog) && spec_quiet_stage(i, catalog, closed, what)
        && spec_same_resources(h.data, i.data, what)) by {
        lemma_quiet_both(h, EventTime::POST1, catalog, closed, what);
    }
    assert(j.wf(catalog) && spec_quiet_stage(j, catalog, closed, what)
        && spec_same_resources(i.data, j.data, what)) by {
        lemma_quiet_both(i, EventTime::POST2, catalog, closed, what);
    }
    assert(k.wf(catalog) && spec_quiet_stage(k, catalog, closed, what)
        && spec_same_resources(j.data, k.data, what)) by {
        lemma_quiet_both(j, EventTime::POST3, catalog, closed, what);
    }
    assert(l.wf(catalog) && spec_quiet_stage(l, catalog, closed, what)
        && spec_same_resources(k.data, l.data, what)) by {
        lemma_quiet_both(k, EventTime::POST4, catalog, closed, what);
    }
    assert(l == h.spec_after(catalog));
    assert(l.data.player_pillz_used == h.data.player_pillz_used && l.data.opp_pillz_used
        == h.data.opp_pillz_used && l.data.card == h.data.card && l.data.opp_card
        == h.data.opp_card) by {
        lemma_after_keeps(h, catalog);
    }
}

/// Whether the lasting abilities that wait on both sides and the ability and
/// the bonus of the two selected cards are quiet and, unless `closed`, the
/// bonus of every card of both hands.
pub open spec fn spec_quiet_round_with(
    game: GameView,
    s1: Selection,
    s2: Selection,
    catalog: Catalog,
    closed: bool,
    what: Resource,
) -> bool {
    &&& spec_quiet_queue(game.events1, closed, what)
    &&& spec_quiet_queue(game.events2, closed, what)
    &&& spec_quiet_id(catalog, game.h1.cards[s1.index as int].ability_id, closed, what)
    &&& spec_quiet_id(catalog, game.h1.cards[s1.index as int].bonus_id, closed, what)
    &&& spec_quiet_id(catalog, game.h2.cards[s2.index as int].ability_id, closed, what)
    &&& spec_quiet_id(catalog, game.h2.cards[s2.index as int].bonus_id, closed, what)
    &&& !closed ==> forall|i: int|
        0 <= i < 4 ==> spec_quiet_id(catalog, (#[trigger] game.h1.cards[i]).bonus_id, closed, what)
    &&& !closed ==> forall|i: int|
        0 <= i < 4 ==> spec_quiet_id(catalog, (#[trigger] game.h2.cards[i]).bonus_id, closed, what)
}

/// Whether the abilities that can act in a round of a match are such as
/// leave a resource alone: the lasting abilities that wait on both sides, and
/// the ability and the bonus of the two selected cards. Where one of them can
/// take over the bonus of another card of its hand, the bonus of every card
/// of both hands leaves it alone too. For life, those that act at the end of
/// the round leave damage alone as well.
pub open spec fn spec_quiet_round(
    game: GameView,
    s1: Selection,
    s2: Selection,
    catalog: Catalog,
    what: Resource,
) -> bool {
    spec_quiet_round_with(game, s1, s2, catalog, true, what) || spec_quiet_round_with(
        game,
        s1,
        s2,
        catalog,
        false,
        what,
    )
}

/// Whether the abilities that act in a round of a match leave a resource as
/// it is: the players have as much of it after the checkpoints before the
/// fight as when the round started, after the checkpoints that follow the
/// attacks as before them, and after the checkpoint at the end of the round
/// as after the payment. For life, the checkpoint at the end of the round
/// leaves the damage of the two cards as it is too.
pub open spec fn spec_steady_round(
    game: GameView,
    s1: Selection,
    s2: Selection,
    catalog: Catalog,
    what: Resource,
) -> bool {
    let open = (GameView { s1: Some(s1), s2: Some(s2), ..game }).spec_open(catalog);
    let before = open.spec_before(catalog);
    let armed = before.spec_fury(s1.fury, s2.fury).spec_attacks(s1.pillz, s2.pillz);
    let met = armed.spec_after(catalog);
    let paid = met.spec_fight().spec_pay();
    let ended = paid.spec_both(EventTime::END, catalog);
    &&& spec_same_resources(open.data, before.data, what)
    &&& spec_same_resources(armed.data, met.data, what)
    &&& spec_same_resources(paid.data, ended.data, what)
    &&& what == Resource::Life ==> spec_same_damage(paid.data, ended.data)
}

/// Whether the round took from each player exactly the pillz that the
/// player's selection costs.
pub open spec fn spec_paid(game: GameView, s1: Selection, s2: Selection, catalog: Catalog) -> bool {
    let after = game.spec_select_both(s1, s2, catalog);
    &&& after.p1.pillz == game.p1.pillz - s1.spec_cost()
    &&& after.p2.pillz == game.p2.pillz - s2.spec_cost()
}

/// Whether the round took life from the loser of the fight only: as much as
/// the winning card has damage, when the cards meet and when the round is
/// over, and at most what the loser has.
pub open spec fn spec_hurt_once(
    game: GameView,
    s1: Selection,
    s2: Selection,
    catalog: Catalog,
) -> bool {
    let met = spec_meeting(
        (GameView { s1: Some(s1), s2: Some(s2), ..game }).spec_open(catalog),
        s1.fury,
        s1.pillz,
        s2.fury,
        s2.pillz,
        catalog,
    ).data;
    let after = game.spec_select_both(s1, s2, catalog);
    let damage1 = after.h1.cards[s1.index as int].damage.value;
    let damage2 = after.h2.cards[s2.index as int].damage.value;
    &&& damage1 == met.acting().damage.value
    &&& damage2 == met.opposing().damage.value
    &&& if spec_first_wins(met) {
        after.p1.life == game.p1.life && after.p2.life == spec_hurt(game.p2.life, damage1)
    } else {
        after.p2.life == game.p2.life && after.p1.life == spec_hurt(game.p1.life, damage2)
    }
    &&& after.p1.life <= game.p1.life
    &&& after.p2.life <= game.p2.life
    &&& game.p1.life - after.p1.life <= damage2
    &&& game.p2.life - after.p2.life <= damage1
}

/// In a round in which no ability that acts changes the pillz of a player,
/// each player pays exactly the pillz that the player's selection costs.
pub proof fn lemma_round_pays(game: GameView, s1: Selection, s2: Selection, catalog: Catalog)
    requires
        game.wf(catalog),
        GameView::spec_legal(s1, game.p1, game.h1),
        GameView::spec_legal(s2, game.p2, game.h2),
        spec_steady_round(game, s1, s2, catalog, Resource::Pillz),
    ensures
        game.spec_select_both(s1, s2, catalog).p1.pillz == game.p1.pillz - s1.spec_cost(),
        game.spec_select_both(s1, s2, catalog).p2.pillz == game.p2.pillz - s2.spec_cost(),
{
    lemma_steady_conserves(game, s1, s2, catalog, Resource::Pillz);
}

/// In a round in which no ability that acts changes the life of a player, or
/// damage at the end of the round, only the loser of the fight loses life: as
/// much as the winning card has damage, when the cards meet and when the
/// round is over, and at most what the loser has. So each player loses at
/// most the damage that the other's card has in the end, and never more life
/// than the player has.
pub proof fn lemma_round_hurts(game: GameView, s1: Selection, s2: Selection, catalog: Catalog)
    requires
        game.wf(catalog),
        GameView::spec_legal(s1, game.p1, game.h1),
        GameView::spec_legal(s2, game.p2, game.h2),
        spec_steady_round(game, s1, s2, catalog, Resource::Life),
    ensures
        spec_hurt_once(game, s1, s2, catalog),
        game.spec_select_both(s1, s2, catalog).p1.life <= game.p1.life,
        game.spec_select_both(s1, s2, catalog).p2.life <= game.p2.life,
        game.p1.life - game.spec_select_both(s1, s2, catalog).p1.life <= game.spec_select_both(
            s1,
            s2,
            catalog,
        ).h2.cards[s2.index as int].damage.value,
        game.p2.life - game.spec_select_both(s1, s2, catalog).p2.life <= game.spec_select_both(
            s1,
            s2,
            catalog,
        ).h1.cards[s1.index as int].damage.value,
{
    lemma_steady_conserves(game, s1, s2, catalog, Resource::Life);
}

/// In a round in which no ability that acts changes life or pillz, or damage
/// at the end of the round, each player pays exactly the pillz that the
/// player's selection costs, and loses at most the damage that the other's
/// card has in the end, and never more life than the player has.
pub proof fn lemma_round_conserves(game: GameView, s1: Selection, s2: Selection, catalog: Catalog)
    requires
        game.wf(catalog),
        GameView::spec_legal(s1, game.p1, game.h1),
        GameView::spec_legal(s2, game.p2, game.h2),
        spec_steady_round(game, s1, s2, catalog, Resource::Pillz),
        spec_steady_round(game, s1, s2, catalog, Resource::Life),
    ensures
        spec_paid(game, s1, s2, catalog),
        spec_hurt_once(game, s1, s2, catalog),
{
    lemma_round_pays(game, s1, s2, catalog);
    lemma_round_hurts(game, s1, s2, catalog);
}

/// The same of the round resolver: where both sides have selected and no
/// ability that acts in the round changes life or pillz, or damage at the end
/// of the round, resolving the round takes from each player exactly the
/// pillz that the player's selection costs, and from each at most as much
/// life as the other's card has damage in the end, and never more than the
/// player has.
pub proof fn lemma_battle_conserves(game: GameView, catalog: Catalog)
    requires
        game.wf(catalog),
        game.s1.is_some(),
        game.s2.is_some(),
        spec_steady_round(game, game.s1.unwrap(), game.s2.unwrap(), catalog, Resource::Pillz),
        spec_steady_round(game, game.s1.unwrap(), game.s2.unwrap(), catalog, Resource::Life),
    ensures
        ({
            let after = game.spec_battle(catalog);
            let s1 = game.s1.unwrap();
            let s2 = game.s2.unwrap();
            &&& after.p1.pillz == game.p1.pillz - s1.spec_cost()
            &&& after.p2.pillz == game.p2.pillz - s2.spec_cost()
            &&& after.p1.life <= game.p1.life
            &&& after.p2.life <= game.p2.life
            &&& game.p1.life - after.p1.life <= after.h2.cards[s2.index as int].damage.value
            &&& game.p2.life - after.p2.life <= after.h1.cards[s1.index as int].damage.value
        }),
{
    let s1 = game.s1.unwrap();
    let s2 = game.s2.unwrap();
    assert((GameView { s1: Some(s1), s2: Some(s2), ..game }) == game);
    lemma_round_conserves(game, s1, s2, catalog);
}

/// Where the abilities that can act in a round are such as leave a resource
/// alone, those that act leave it as it is, whether they act or not.
pub proof fn lemma_quiet_round_is_steady(
    game: GameView,
    s1: Selection,
    s2: Selection,
    catalog: Catalog,
    what: Resource,
)
    requires
        game.wf(catalog),
        GameView::spec_legal(s1, game.p1, game.h1),
        GameView::spec_legal(s2, game.p2, game.h2),
        spec_quiet_round(game, s1, s2, catalog, what),
    ensures
        spec_steady_round(game, s1, s2, catalog, what),
{
    let closed = spec_quiet_round_with(game, s1, s2, catalog, true, what);
    let ready = GameView { s1: Some(s1), s2: Some(s2), ..game };
    let open = ready.spec_open(catalog);
    let before = open.spec_before(catalog);
    let armed = before.spec_fury(s1.fury, s2.fury).spec_attacks(s1.pillz, s2.pillz);
    let met = armed.spec_after(catalog);
    let paid = met.spec_fight().spec_pay();
    assert(open.wf(catalog)) by {
        lemma_battle_keeps_wf(ready, catalog);
    }
    assert(spec_quiet_stage(open, catalog, closed, what)) by {
        lemma_open_quiet(ready, catalog, closed, what);
    }
    assert(met.wf(catalog) && spec_quiet_stage(met, catalog, closed, what) && spec_same_resources(
        open.data,
        before.data,
        what,
    ) && spec_same_resources(armed.data, met.data, what)) by {
        lemma_quiet_meeting(open, s1.fury, s1.pillz, s2.fury, s2.pillz, catalog, closed, what);
    }
    assert(paid.wf(catalog) && spec_quiet_stage(paid, catalog, closed, what)) by {
        lemma_quiet_fight(met, catalog, closed, what);
    }
    lemma_quiet_both(paid, EventTime::END, catalog, closed, what);
}

/// A round in which the abilities that act leave a resource as it is takes
/// of it what the fight and the payment take.
pub proof fn lemma_steady_conserves(
    game: GameView,
    s1: Selection,
    s2: Selection,
    catalog: Catalog,
    what: Resource,
)
    requires
        game.wf(catalog),
        GameView::spec_legal(s1, game.p1, game.h1),
        GameView::spec_legal(s2, game.p2, game.h2),
        spec_steady_round(game, s1, s2, catalog, what),
    ensures
        what == Resource::Pillz ==> spec_paid(game, s1, s2, catalog),
        what == Resource::Life ==> spec_hurt_once(game, s1, s2, catalog),
{
    let ready = GameView { s1: Some(s1), s2: Some(s2), ..game };
    let open = ready.spec_open(catalog);
    let before = open.spec_before(catalog);
    let armed = before.spec_fury(s1.fury, s2.fury).spec_attacks(s1.pillz, s2.pillz);
    let met = armed.spec_after(catalog);
    let fought = met.spec_fight();
    let paid = fought.spec_pay();
    let ended = paid.spec_both(EventTime::END, catalog);
    let end = open.spec_resolve(s1.fury, s1.pillz, s2.fury, s2.pillz, catalog);
    assert(met == spec_meeting(open, s1.fury, s1.pillz, s2.fury, s2.pillz, catalog));
    assert(open.wf(catalog)) by {
        lemma_battle_keeps_wf(ready, catalog);
    }
    assert(before.wf(catalog) && before.data.player_pillz_used == open.data.player_pillz_used
        && before.data.opp_pillz_used == open.data.opp_pillz_used && before.data.card
        == open.data.card && before.data.opp_card == open.data.opp_card) by {
        lemma_before_keeps(open, catalog);
    }
    assert(armed.wf(catalog) && spec_same_resources(before.data, armed.data, what)
        && armed.data.player_pillz_used == before.data.player_pillz_used
        && armed.data.opp_pillz_used == before.data.opp_pillz_used && armed.data.card
        == before.data.card && armed.data.opp_card == before.data.opp_card) by {
        lemma_arming_keeps(before, s1.fury, s1.pillz, s2.fury, s2.pillz, catalog);
        lemma_arming_keeps(
            before.spec_fury(s1.fury, s2.fury),
            s1.fury,
            s1.pillz,
            s2.fury,
            s2.pillz,
            catalog,
        );
    }
    assert(met.wf(catalog) && met.data.player_pillz_used == armed.data.player_pillz_used
        && met.data.opp_pillz_used == armed.data.opp_pillz_used && met.data.card
        == armed.data.card && met.data.opp_card == armed.data.opp_card) by {
        lemma_after_keeps(armed, catalog);
    }
    assert(paid.wf(catalog) && spec_same_damage(met.data, paid.data) && paid.data.card
        == met.data.card && paid.data.opp_card == met.data.opp_card) by {
        lemma_fight_damage(met, catalog);
    }
    assert(ended.wf(catalog) && ended.data.card == paid.data.card && ended.data.opp_card
        == paid.data.opp_card) by {
        lemma_both_keeps(paid, EventTime::END, catalog);
    }
    assert(end == ended.spec_played()) by {
        reveal(Stage::spec_resolve);
    }
    assert(end.data.player == ended.data.player && end.data.opp == ended.data.opp
        && end.data.acting().damage == ended.data.acting().damage && end.data.opposing().damage
        == ended.data.opposing().damage && end.data.card == ended.data.card && end.data.opp_card
        == ended.data.opp_card) by {
        lemma_played_keeps(ended, catalog);
        lemma_quiet_played(ended, catalog);
    }
}

/// The fight and the payment keep a stage well formed and leave the damage
/// of the two cards as it is.
pub proof fn lemma_fight_damage(stage: Stage, catalog: Catalog)
    requires
        stage.wf(catalog),
    ensures
        stage.spec_fight().spec_pay().wf(catalog),
        spec_same_damage(stage.data, stage.spec_fight().spec_pay().data),
        stage.spec_fight().spec_pay().data.card == stage.data.card,
        stage.spec_fight().spec_pay().data.opp_card == stage.data.opp_card,
{
    lemma_fight_keeps(stage, catalog);
    lemma_fight_keeps(stage.spec_fight(), catalog);
}

/// The fight and the payment leave damage as it is and a quiet stage quiet.
pub proof fn lemma_quiet_fight(stage: Stage, catalog: Catalog, closed: bool, what: Resource)
    requires
        stage.wf(catalog),
        spec_quiet_stage(stage, catalog, closed, what),
    ensures
        stage.spec_fight().spec_pay().wf(catalog),
        spec_quiet_stage(stage.spec_fight().spec_pay(), catalog, closed, what),
        spec_same_damage(stage.data, stage.spec_fight().spec_pay().data),
        stage.spec_fight().spec_pay().data.card == stage.data.card,
        stage.spec_fight().spec_pay().data.opp_card == stage.data.opp_card,
{
    let data = stage.data;
    lemma_fight_keeps(stage, catalog);
    lemma_fight_keeps(stage.spec_fight(), catalog);
    lemma_quiet_with_card(data, catalog, false, Card { won: true, ..data.acting() }, closed, what);
    lemma_quiet_with_card(data, catalog, true, Card { won: true, ..data.opposing() }, closed, what);
    let fought = stage.spec_fight().data;
    let changed = if spec_first_wins(data) {
        data.with_acting(Card { won: true, ..data.acting() })
    } else {
        data.with_opposing(Card { won: true, ..data.opposing() })
    };
    assert(fought.hand == changed.hand && fought.opp_hand == changed.opp_hand && fought.card
        == changed.card && fought.opp_card == changed.opp_card);
    assert(spec_quiet_data(changed, catalog, closed, what));
    let paid = stage.spec_fight().spec_pay().data;
    assert(paid.hand == fought.hand && paid.opp_hand == fought.opp_hand && paid.card == fought.card
        && paid.opp_card == fought.opp_card);
    if !closed {
        assert forall|i: int| 0 <= i < 4 implies spec_quiet_id(
            catalog,
            (#[trigger] paid.hand.cards[i]).bonus_id,
            closed,
            what,
        ) by {
            assert(spec_quiet_id(catalog, changed.hand.cards[i].bonus_id, closed, what));
        }
        assert forall|i: int| 0 <= i < 4 implies spec_quiet_id(
            catalog,
            (#[trigger] paid.opp_hand.cards[i]).bonus_id,
            closed,
            what,
        ) by {
            assert(spec_quiet_id(catalog, changed.opp_hand.cards[i].bonus_id, closed, what));
        }
    }
}

/// Marking the cards in play as played leaves their damage as it is.
pub proof fn lemma_quiet_played(stage: Stage, catalog: Catalog)
    requires
        stage.wf(catalog),
    ensures
        stage.spec_played().data.acting().damage == stage.data.acting().damage,
        stage.spec_played().data.opposing().damage == stage.data.opposing().damage,
        stage.spec_played().data.player == stage.data.player,
        stage.spec_played().data.opp == stage.data.opp,
        stage.spec_played().data.card == stage.data.card,
        stage.spec_played().data.opp_card == stage.data.opp_card,
{
}

/// Where the abilities that can act in a round are quiet, the round starts
/// from a quiet stage.
pub proof fn lemma_open_quiet(game: GameView, catalog: Catalog, closed: bool, what: Resource)
    requires
        game.wf(catalog),
        game.s1.is_some(),
        game.s2.is_some(),
        spec_quiet_round_with(game, game.s1.unwrap(), game.s2.unwrap(), catalog, closed, what),
    ensures
        spec_quiet_stage(game.spec_open(catalog), catalog, closed, what),
{
    let s1 = game.s1.unwrap();
    let s2 = game.s2.unwrap();
    let card1 = game.h1.cards[s1.index as int];
    let card2 = game.h2.cards[s2.index as int];
    let open = game.spec_open(catalog);
    assert(spec_quiet_id(catalog, card1.bonus_id, closed, what)
        && spec_quiet_id(catalog, card2.bonus_id, closed, what));
    assert(spec_quiet_queue(open.events1, closed, what)
        && spec_quiet_queue(open.events2, closed, what)) by {
        lemma_add_keeps_wf(game.events1, catalog.ability(card1.ability_id)@);
        lemma_add_keeps_wf(game.events2, catalog.ability(card2.ability_id)@);
        lemma_quiet_add(game.events1, catalog.ability(card1.ability_id)@, closed, what);
        lemma_quiet_add(
            game.events1.spec_add(catalog.ability(card1.ability_id)@),
            catalog.ability(card1.bonus_id)@,
            closed,
            what,
        );
        lemma_quiet_add(game.events2, catalog.ability(card2.ability_id)@, closed, what);
        lemma_quiet_add(
            game.events2.spec_add(catalog.ability(card2.ability_id)@),
            catalog.ability(card2.bonus_id)@,
            closed,
            what,
        );
    }
    assert(open.data.hand == game.h1 && open.data.opp_hand == game.h2);
    assert(open.data.acting() == card1 && open.data.opposing() == card2);
}

} // verus!
