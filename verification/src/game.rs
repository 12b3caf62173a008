use vstd::prelude::*;
use crate::ability::AbilityType;
use crate::battle::{
    lemma_add_waiting, lemma_execute_waiting, lemma_waiting_idle, spec_waiting,
    lemma_check_bucket_keeps, lemma_execute_keeps, lemma_steady_chain, lemma_with_card_steady,
    spec_check_bucket, spec_empty_queue, spec_same_card, spec_steady, BattleData, Events,
    EventsView,
};
use crate::card::{AttackStat, Card, CardStat, Hand};
use crate::catalog::Catalog;
use crate::modifiers::EventTime;
use crate::text::{
    lemma_first_piece, parse_bool, parse_u8, parse_usize, spec_pieces, spec_truth_value,
    spec_unsigned, split_spaces,
};

verus! {

/// How a round ended for a player.
#[derive(Debug, Clone, Copy, PartialEq, Eq, Structural)]
pub enum RoundWin {
    WIN,
    LOSE,
    NONE,
}

/// One of the two sides of a match.
#[derive(Debug, Clone, Copy, PartialEq, Eq, Structural)]
pub enum PlayerType {
    Player,
    Opponent,
}

/// Where a match stands.
#[derive(Debug, Clone, Copy, PartialEq, Eq, Structural)]
pub enum GameStatus {
    Player,
    Opponent,
    Draw,
    Playing,
}

/// A side's life and pillz, now and at the start of the round, and how this
/// round and the one before it ended for the side.
#[derive(Debug, Clone, Copy)]
pub struct Player {
    pub player_type: PlayerType,
    pub life: u8,
    pub life_previous: u8,
    pub pillz: u8,
    pub pillz_previous: u8,
    pub won: RoundWin,
    pub won_previous: RoundWin,
}

impl Player {
    /// A player at the start of a match: 12 life, 12 pillz, no round played.
    pub fn new(player_type: PlayerType) -> (player: Self)
        ensures
            player == (Player {
                player_type,
                life: 12,
                life_previous: 12,
                pillz: 12,
                pillz_previous: 12,
                won: RoundWin::NONE,
                won_previous: RoundWin::NONE,
            }),
    {
        Player {
            player_type,
            life: 12,
            life_previous: 12,
            pillz: 12,
            pillz_previous: 12,
            won: RoundWin::NONE,
            won_previous: RoundWin::NONE,
        }
    }
}

/// A side's choice for a round: a card of its hand, the pillz wagered on it
/// and whether fury is declared.
#[derive(Clone, Copy, Debug, Eq, PartialEq, Hash, Structural)]
pub struct Selection {
    pub index: usize,
    pub pillz: u8,
    pub fury: bool,
}

impl Default for Selection {
    fn default() -> (selection: Self)
        ensures
            selection == (Selection { index: 0, pillz: 0, fury: false }),
    {
        Selection { index: 0, pillz: 0, fury: false }
    }
}

/// The character of a decimal digit.
pub open spec fn spec_digit(digit: nat) -> char {
    ((48 + digit) as u8) as char
}

/// A number in decimal digits.
pub open spec fn spec_decimal(n: nat) -> Seq<char>
    decreases n,
{
    if n < 10 {
        seq![spec_digit(n)]
    } else {
        spec_decimal(n / 10).push(spec_digit(n % 10))
    }
}

/// `true` or `false`, spelled out.
pub open spec fn spec_truth(b: bool) -> Seq<char> {
    if b {
        "true"@
    } else {
        "false"@
    }
}

/// `format!` on an unsigned number, a byte and a truth value with a space
/// between them: the two numbers in decimal digits and the truth value spelled
/// out.
#[verifier::external_body]
fn format_selection(index: usize, pillz: u8, fury: bool) -> (text: String)
    ensures
        text@ == spec_decimal(index as nat) + seq![' '] + spec_decimal(pillz as nat) + seq![' ']
            + spec_truth(fury),
{
    format!("{} {} {}", index, pillz, fury)
}

impl Selection {
    /// The selection in words: the card, the pillz and the fury flag, with a
    /// space between them.
    pub open spec fn spec_describe(self) -> Seq<char> {
        spec_decimal(self.index as nat) + seq![' '] + spec_decimal(self.pillz as nat) + seq![' ']
            + spec_truth(self.fury)
    }

    /// The selection that a line of input stands for: a card, then maybe the
    /// pillz, then maybe the fury flag, with single spaces between them. What
    /// follows the fury flag is not read. Pillz and fury that are left out
    /// are none. A line whose first word is no number, whose second is no
    /// number up to 255 or whose third is neither `true` nor `false` stands for
    /// nothing.
    pub open spec fn spec_parse(input: Seq<char>) -> Option<Selection> {
        let tokens = spec_pieces(input, 0);
        match spec_unsigned(tokens[0], usize::MAX as nat) {
            None => None,
            Some(index) => if tokens.len() < 2 {
                Some(Selection { index: index as usize, pillz: 0, fury: false })
            } else {
                match spec_unsigned(tokens[1], 255) {
                    None => None,
                    Some(pillz) => if tokens.len() < 3 {
                        Some(Selection { index: index as usize, pillz: pillz as u8, fury: false })
                    } else {
                        match spec_truth_value(tokens[2]) {
                            None => None,
                            Some(fury) => Some(
                                Selection { index: index as usize, pillz: pillz as u8, fury },
                            ),
                        }
                    },
                }
            },
        }
    }

    /// Reads a selection from a line of input.
    pub fn parse(input: String) -> (selection: Option<Selection>)
        ensures
            selection == Selection::spec_parse(input@),
    {
        let tokens = split_spaces(input.as_str());
        proof {
            lemma_first_piece(input@);
            assert(tokens@.len() == spec_pieces(input@, 0).len());
            assert forall|i: int| 0 <= i < tokens@.len() implies (#[trigger] tokens@[i])@
                == spec_pieces(input@, 0)[i] by {
                assert(tokens@.map_values(|p: String| p@)[i] == tokens@[i]@);
            }
        }
        let index = match parse_usize(tokens[0].as_str()) {
            Some(index) => index,
            None => {
                return None;
            },
        };
        if tokens.len() < 2 {
            return Some(Selection { index, pillz: 0, fury: false });
        }
        let pillz = match parse_u8(tokens[1].as_str()) {
            Some(pillz) => pillz,
            None => {
                return None;
            },
        };
        if tokens.len() < 3 {
            return Some(Selection { index, pillz, fury: false });
        }
        match parse_bool(tokens[2].as_str()) {
            Some(fury) => Some(Selection { index, pillz, fury }),
            None => None,
        }
    }

    /// The selection in words.
    pub fn describe(&self) -> (text: String)
        ensures
            text@ == self.spec_describe(),
    {
        format_selection(self.index, self.pillz, self.fury)
    }

    /// The pillz that the selection takes from the pool: those wagered, and
    /// three more with fury.
    pub open spec fn spec_cost(self) -> int {
        if self.fury {
            self.pillz + 3
        } else {
            self.pillz as int
        }
    }

    /// The selection of card `index` with `pillz` pillz and, if `fury`, fury.
    pub fn new(index: usize, pillz: u8, fury: bool) -> (selection: Self)
        ensures
            selection == (Selection { index, pillz, fury }),
    {
        Selection { index, pillz, fury }
    }

    /// The pillz that the selection takes from the pool.
    pub fn cost(&self) -> (cost: u16)
        ensures
            cost == self.spec_cost(),
    {
        if self.fury {
            self.pillz as u16 + 3
        } else {
            self.pillz as u16
        }
    }
}

/// A round while it is resolved: both queues, and the round as the first side
/// (the player) sees it.
pub struct Stage {
    pub events1: EventsView,
    pub events2: EventsView,
    pub data: BattleData,
}

impl Stage {
    /// The queues and the round are well formed.
    pub open spec fn wf(self, catalog: Catalog) -> bool {
        self.events1.wf() && self.events2.wf() && self.data.wf(catalog)
    }

    /// The round after both sides ran the checkpoint `time`: the first side,
    /// then the second.
    #[verifier::opaque]
    pub open spec fn spec_both(self, time: EventTime, catalog: Catalog) -> Stage {
        let (events1, mid) = self.events1.spec_execute(time, self.data, catalog);
        let (events2, end) = self.events2.spec_execute(time, mid.mirrored(), catalog);
        Stage { events1, events2, data: end.mirrored() }
    }

    /// The round after both sides looked again at their cancels, and whether
    /// either changed anything.
    pub open spec fn spec_check(self) -> (bool, Stage) {
        let at = EventTime::PRE4.spec_index();
        let (changed1, mid) = spec_check_bucket(
            self.events1.events[at],
            self.events1.events[at].len() as int,
            self.data,
        );
        let (changed2, end) = spec_check_bucket(
            self.events2.events[at],
            self.events2.events[at].len() as int,
            mid.mirrored(),
        );
        (changed1 || changed2, Stage { data: end.mirrored(), ..self })
    }

    /// The round after the cancels were looked at again until nothing
    /// changed, at most `times` times.
    pub open spec fn spec_settle(self, times: nat) -> Stage
        decreases times,
    {
        if times == 0 {
            self
        } else {
            let (changed, next) = self.spec_check();
            if changed {
                next.spec_settle((times - 1) as nat)
            } else {
                next
            }
        }
    }

    /// The round after fury.
    pub open spec fn spec_fury(self, fury1: bool, fury2: bool) -> Stage {
        Stage { data: spec_with_fury(self.data, fury1, fury2), ..self }
    }

    /// The round after the attacks were computed.
    pub open spec fn spec_attacks(self, pillz1: u8, pillz2: u8) -> Stage {
        Stage { data: spec_with_attacks(self.data, pillz1, pillz2), ..self }
    }

    /// The round after the fight.
    pub open spec fn spec_fight(self) -> Stage {
        Stage { data: spec_after_fight(self.data), ..self }
    }

    /// The round after both players paid.
    pub open spec fn spec_pay(self) -> Stage {
        Stage { data: spec_after_payment(self.data), ..self }
    }

    /// The round after both cards in play were marked as played.
    pub open spec fn spec_played(self) -> Stage {
        Stage { data: spec_with_played(self.data), ..self }
    }

    /// The round after everything from its start to its end: the checkpoints
    /// before the fight, with the cancels settled after the first of them;
    /// fury and the attacks; the checkpoints after them; the fight and the
    /// payment; the checkpoint at the end; and the cards marked as played.
    #[verifier::opaque]
    pub open spec fn spec_resolve(
        self,
        fury1: bool,
        pillz1: u8,
        fury2: bool,
        pillz2: u8,
        catalog: Catalog,
    ) -> Stage {
        self.spec_fought(fury1, pillz1, fury2, pillz2, catalog).spec_both(
            EventTime::END,
            catalog,
        ).spec_played()
    }

    /// The round after everything up to the fight and the payment.
    pub open spec fn spec_fought(
        self,
        fury1: bool,
        pillz1: u8,
        fury2: bool,
        pillz2: u8,
        catalog: Catalog,
    ) -> Stage {
        self.spec_before(catalog).spec_fury(fury1, fury2).spec_attacks(pillz1, pillz2).spec_after(
            catalog,
        ).spec_fight().spec_pay()
    }

    /// The round after the checkpoints before the fight.
    pub open spec fn spec_before(self, catalog: Catalog) -> Stage {
        self.spec_both(EventTime::START, catalog).spec_both(EventTime::PRE4, catalog).spec_settle(
            3,
        ).spec_both(EventTime::PRE3, catalog).spec_both(EventTime::PRE2, catalog).spec_both(
            EventTime::PRE1,
            catalog,
        )
    }

    /// The round after the checkpoints after the attacks were computed.
    pub open spec fn spec_after(self, catalog: Catalog) -> Stage {
        self.spec_both(EventTime::POST1, catalog).spec_both(EventTime::POST2, catalog).spec_both(
            EventTime::POST3,
            catalog,
        ).spec_both(EventTime::POST4, catalog)
    }
}

/// The round after fury: the card of a side that declared it has 2 more
/// damage, and at most 255.
pub open spec fn spec_with_fury(data: BattleData, fury1: bool, fury2: bool) -> BattleData {
    let own = data.acting();
    let other = data.opposing();
    let with1 = if fury1 {
        data.with_acting(spec_furious(own))
    } else {
        data
    };
    if fury2 {
        with1.with_opposing(spec_furious(other))
    } else {
        with1
    }
}

/// The round after the attacks were computed: each card's attack is its power
/// times one more than the pillz wagered on it.
pub open spec fn spec_with_attacks(data: BattleData, pillz1: u8, pillz2: u8) -> BattleData {
    data.with_acting(spec_attacking(data.acting(), pillz1)).with_opposing(
        spec_attacking(data.opposing(), pillz2),
    )
}

/// Whether the acting side wins the fight: with the higher attack; with equal
/// attacks, with the lower level; with equal levels too, if it acted first.
pub open spec fn spec_first_wins(data: BattleData) -> bool {
    let own = data.acting();
    let other = data.opposing();
    own.attack.value > other.attack.value || (own.attack.value == other.attack.value && (own.level
        < other.level || (own.level == other.level && data.first)))
}

/// The round after the fight: the loser has lost as much life as the winning
/// card has damage, and at most what it had; the winning card and both
/// players know the result.
pub open spec fn spec_after_fight(data: BattleData) -> BattleData {
    let own = data.acting();
    let other = data.opposing();
    if spec_first_wins(data) {
        BattleData {
            player: Player { won: RoundWin::WIN, ..data.player },
            opp: Player {
                won: RoundWin::LOSE,
                life: spec_hurt(data.opp.life, own.damage.value),
                ..data.opp
            },
            ..data.with_acting(Card { won: true, ..own })
        }
    } else {
        BattleData {
            player: Player {
                won: RoundWin::LOSE,
                life: spec_hurt(data.player.life, other.damage.value),
                ..data.player
            },
            opp: Player { won: RoundWin::WIN, ..data.opp },
            ..data.with_opposing(Card { won: true, ..other })
        }
    }
}

/// The round after both players paid the pillz they spent; a player who has
/// fewer left pays them all.
pub open spec fn spec_after_payment(data: BattleData) -> BattleData {
    BattleData {
        player: Player {
            pillz: spec_hurt(data.player.pillz, data.player_pillz_used),
            ..data.player
        },
        opp: Player { pillz: spec_hurt(data.opp.pillz, data.opp_pillz_used), ..data.opp },
        ..data
    }
}

/// The round after both cards in play were marked as played.
pub open spec fn spec_with_played(data: BattleData) -> BattleData {
    data.with_acting(Card { played: true, ..data.acting() }).with_opposing(
        Card { played: true, ..data.opposing() },
    )
}

/// A card with 2 more damage, and at most 255.
pub open spec fn spec_furious(card: Card) -> Card {
    Card {
        damage: CardStat {
            value: if card.damage.value > 253 {
                255u8
            } else {
                (card.damage.value + 2) as u8
            },
            ..card.damage
        },
        ..card
    }
}

/// A card whose attack is its power times one more than `pillz`.
pub open spec fn spec_attacking(card: Card, pillz: u8) -> Card {
    Card {
        attack: AttackStat { value: ((pillz + 1) * card.power.value) as u16, ..card.attack },
        ..card
    }
}

/// What is left of `have` after `loss` was taken from it, and at least 0.
pub open spec fn spec_hurt(have: u8, loss: u8) -> u8 {
    if loss >= have {
        0
    } else {
        (have - loss) as u8
    }
}

/// A checkpoint run by both sides keeps the stage well formed and steady.
pub proof fn lemma_both_keeps(stage: Stage, time: EventTime, catalog: Catalog)
    requires
        stage.wf(catalog),
    ensures
        stage.spec_both(time, catalog).wf(catalog),
        spec_steady(stage.data, stage.spec_both(time, catalog).data),
{
    reveal(Stage::spec_both);
    lemma_execute_keeps(stage.events1, time, stage.data, catalog);
    let mid = stage.events1.spec_execute(time, stage.data, catalog).1;
    lemma_execute_keeps(stage.events2, time, mid.mirrored(), catalog);
    let end = stage.events2.spec_execute(time, mid.mirrored(), catalog).1;
    lemma_steady_chain(mid.mirrored(), end, end);
    lemma_steady_chain(mid.mirrored().mirrored(), end.mirrored(), end);
    lemma_steady_chain(stage.data, mid, end.mirrored());
}

/// Looking again at the cancels keeps the stage well formed and steady, and
/// changes nothing where it reports no change.
pub proof fn lemma_check_keeps(stage: Stage, catalog: Catalog)
    requires
        stage.wf(catalog),
    ensures
        stage.spec_check().1.wf(catalog),
        spec_steady(stage.data, stage.spec_check().1.data),
        !stage.spec_check().0 ==> stage.spec_check().1 == stage,
{
    let at = EventTime::PRE4.spec_index();
    let bucket1 = stage.events1.events[at];
    let bucket2 = stage.events2.events[at];
    lemma_check_bucket_keeps(bucket1, bucket1.len() as int, stage.data, catalog);
    let mid = spec_check_bucket(bucket1, bucket1.len() as int, stage.data).1;
    lemma_check_bucket_keeps(bucket2, bucket2.len() as int, mid.mirrored(), catalog);
    let end = spec_check_bucket(bucket2, bucket2.len() as int, mid.mirrored()).1;
    lemma_steady_chain(mid.mirrored(), end, end);
    lemma_steady_chain(mid.mirrored().mirrored(), end.mirrored(), end);
    lemma_steady_chain(stage.data, mid, end.mirrored());
}

/// Settling the cancels keeps the stage well formed and steady.
pub proof fn lemma_settle_keeps(stage: Stage, times: nat, catalog: Catalog)
    requires
        stage.wf(catalog),
    ensures
        stage.spec_settle(times).wf(catalog),
        spec_steady(stage.data, stage.spec_settle(times).data),
    decreases times,
{
    lemma_steady_chain(stage.data, stage.data, stage.data);
    if times > 0 {
        lemma_check_keeps(stage, catalog);
        let (changed, next) = stage.spec_check();
        if changed {
            lemma_settle_keeps(next, (times - 1) as nat, catalog);
            lemma_steady_chain(stage.data, next.data, next.spec_settle((times - 1) as nat).data);
        }
    }
}

/// What the resolution of a round leaves of the marks on the cards: which
/// cards are in play, which cards were played, and which of the cards that
/// are not in play have won.
pub open spec fn spec_same_marks(a: BattleData, b: BattleData) -> bool {
    &&& a.card == b.card
    &&& a.opp_card == b.opp_card
    &&& a.round == b.round
    &&& forall|i: int|
        0 <= i < 4 ==> (#[trigger] a.hand.cards[i]).played == b.hand.cards[i].played && (i
            != a.card ==> a.hand.cards[i].won == b.hand.cards[i].won)
    &&& forall|i: int|
        0 <= i < 4 ==> (#[trigger] a.opp_hand.cards[i]).played == b.opp_hand.cards[i].played && (i
            != a.opp_card ==> a.opp_hand.cards[i].won == b.opp_hand.cards[i].won)
}

/// Steady rounds have the same marks, and sameness of marks carries over.
pub proof fn lemma_marks_chain(a: BattleData, b: BattleData, c: BattleData)
    ensures
        spec_steady(a, b) ==> spec_same_marks(a, b),
        spec_same_marks(a, b) && spec_same_marks(b, c) ==> spec_same_marks(a, c),
{
    if spec_steady(a, b) {
        assert forall|i: int| 0 <= i < 4 implies (#[trigger] a.hand.cards[i]).played
            == b.hand.cards[i].played && a.hand.cards[i].won == b.hand.cards[i].won by {
            assert(spec_same_card(a.hand.cards[i], b.hand.cards[i]));
        }
        assert forall|i: int| 0 <= i < 4 implies (#[trigger] a.opp_hand.cards[i]).played
            == b.opp_hand.cards[i].played && a.opp_hand.cards[i].won == b.opp_hand.cards[i].won by {
            assert(spec_same_card(a.opp_hand.cards[i], b.opp_hand.cards[i]));
        }
    }
}

/// The checkpoints before the fight keep the stage well formed and the marks.
pub proof fn lemma_before_keeps(stage: Stage, catalog: Catalog)
    requires
        stage.wf(catalog),
    ensures
        stage.spec_before(catalog).wf(catalog),
        spec_steady(stage.data, stage.spec_before(catalog).data),
{
    let a = stage.spec_both(EventTime::START, catalog);
    lemma_both_keeps(stage, EventTime::START, catalog);
    let b = a.spec_both(EventTime::PRE4, catalog);
    lemma_both_keeps(a, EventTime::PRE4, catalog);
    let c = b.spec_settle(3);
    lemma_settle_keeps(b, 3, catalog);
    let d = c.spec_both(EventTime::PRE3, catalog);
    lemma_both_keeps(c, EventTime::PRE3, catalog);
    let e = d.spec_both(EventTime::PRE2, catalog);
    lemma_both_keeps(d, EventTime::PRE2, catalog);
    let f = e.spec_both(EventTime::PRE1, catalog);
    lemma_both_keeps(e, EventTime::PRE1, catalog);
    lemma_steady_chain(stage.data, a.data, b.data);
    lemma_steady_chain(stage.data, b.data, c.data);
    lemma_steady_chain(stage.data, c.data, d.data);
    lemma_steady_chain(stage.data, d.data, e.data);
    lemma_steady_chain(stage.data, e.data, f.data);
}

/// The checkpoints after the attacks keep the stage well formed and steady.
pub proof fn lemma_after_keeps(stage: Stage, catalog: Catalog)
    requires
        stage.wf(catalog),
    ensures
        stage.spec_after(catalog).wf(catalog),
        spec_steady(stage.data, stage.spec_after(catalog).data),
{
    let a = stage.spec_both(EventTime::POST1, catalog);
    lemma_both_keeps(stage, EventTime::POST1, catalog);
    let b = a.spec_both(EventTime::POST2, catalog);
    lemma_both_keeps(a, EventTime::POST2, catalog);
    let c = b.spec_both(EventTime::POST3, catalog);
    lemma_both_keeps(b, EventTime::POST3, catalog);
    let d = c.spec_both(EventTime::POST4, catalog);
    lemma_both_keeps(c, EventTime::POST4, catalog);
    lemma_steady_chain(stage.data, a.data, b.data);
    lemma_steady_chain(stage.data, b.data, c.data);
    lemma_steady_chain(stage.data, c.data, d.data);
}

/// Fury and the attacks keep the stage well formed and steady.
pub proof fn lemma_arming_keeps(
    stage: Stage,
    fury1: bool,
    pillz1: u8,
    fury2: bool,
    pillz2: u8,
    catalog: Catalog,
)
    requires
        stage.wf(catalog),
    ensures
        stage.spec_fury(fury1, fury2).wf(catalog),
        spec_steady(stage.data, stage.spec_fury(fury1, fury2).data),
        stage.spec_attacks(pillz1, pillz2).wf(catalog),
        spec_steady(stage.data, stage.spec_attacks(pillz1, pillz2).data),
{
    let data = stage.data;
    let own = data.acting();
    let other = data.opposing();
    lemma_steady_chain(data, data, data);
    lemma_with_card_steady(data, catalog, false, spec_furious(own));
    lemma_with_card_steady(data, catalog, true, spec_furious(other));
    lemma_with_card_steady(data.with_acting(spec_furious(own)), catalog, true, spec_furious(other));
    lemma_steady_chain(
        data,
        data.with_acting(spec_furious(own)),
        data.with_acting(spec_furious(own)).with_opposing(spec_furious(other)),
    );
    lemma_with_card_steady(data, catalog, false, spec_attacking(own, pillz1));
    lemma_with_card_steady(
        data.with_acting(spec_attacking(own, pillz1)),
        catalog,
        true,
        spec_attacking(other, pillz2),
    );
    lemma_steady_chain(
        data,
        data.with_acting(spec_attacking(own, pillz1)),
        stage.spec_attacks(pillz1, pillz2).data,
    );
}

/// The fight and the payment keep the stage well formed and the marks.
pub proof fn lemma_fight_keeps(stage: Stage, catalog: Catalog)
    requires
        stage.wf(catalog),
    ensures
        stage.spec_fight().wf(catalog),
        spec_same_marks(stage.data, stage.spec_fight().data),
        stage.spec_pay().wf(catalog),
        spec_steady(stage.data, stage.spec_pay().data),
{
    let data = stage.data;
    lemma_steady_chain(data, data, data);
    let after = stage.spec_fight().data;
    assert(after.hand.placed() && after.opp_hand.placed() && after.known(catalog)
        && spec_same_marks(data, after)) by {
        assert forall|i: int| 0 <= i < 4 implies {
            &&& (#[trigger] after.hand.cards[i]).index == i
            &&& after.hand.cards[i].known(catalog)
            &&& after.hand.cards[i].played == data.hand.cards[i].played
            &&& i != data.card ==> after.hand.cards[i].won == data.hand.cards[i].won
        } by {
            assert(data.hand.cards[i].index == i);
            assert(data.hand.cards[i].known(catalog));
        }
        assert forall|i: int| 0 <= i < 4 implies {
            &&& (#[trigger] after.opp_hand.cards[i]).index == i
            &&& after.opp_hand.cards[i].known(catalog)
            &&& after.opp_hand.cards[i].played == data.opp_hand.cards[i].played
            &&& i != data.opp_card ==> after.opp_hand.cards[i].won == data.opp_hand.cards[i].won
        } by {
            assert(data.opp_hand.cards[i].index == i);
            assert(data.opp_hand.cards[i].known(catalog));
        }
    }
}

/// How many cards of a hand were played.
pub open spec fn spec_count_played(hand: Hand) -> int {
    (if hand.cards[0].played {
        1int
    } else {
        0
    }) + (if hand.cards[1].played {
        1int
    } else {
        0
    }) + (if hand.cards[2].played {
        1int
    } else {
        0
    }) + (if hand.cards[3].played {
        1int
    } else {
        0
    })
}

/// Everything up to the fight and the payment keeps the stage well formed and
/// the marks.
pub proof fn lemma_fought_keeps(
    stage: Stage,
    fury1: bool,
    pillz1: u8,
    fury2: bool,
    pillz2: u8,
    catalog: Catalog,
)
    requires
        stage.wf(catalog),
    ensures
        stage.spec_fought(fury1, pillz1, fury2, pillz2, catalog).wf(catalog),
        spec_same_marks(stage.data, stage.spec_fought(fury1, pillz1, fury2, pillz2, catalog).data),
{
    let a = stage.spec_before(catalog);
    let b = a.spec_fury(fury1, fury2);
    let c = b.spec_attacks(pillz1, pillz2);
    let d = c.spec_after(catalog);
    let e = d.spec_fight();
    let f = e.spec_pay();
    assert(a.wf(catalog) && spec_same_marks(stage.data, a.data)) by {
        lemma_before_keeps(stage, catalog);
        lemma_marks_chain(stage.data, a.data, a.data);
    }
    assert(b.wf(catalog) && spec_same_marks(a.data, b.data)) by {
        lemma_arming_keeps(a, fury1, pillz1, fury2, pillz2, catalog);
        lemma_marks_chain(a.data, b.data, b.data);
    }
    assert(c.wf(catalog) && spec_same_marks(b.data, c.data)) by {
        lemma_arming_keeps(b, fury1, pillz1, fury2, pillz2, catalog);
        lemma_marks_chain(b.data, c.data, c.data);
    }
    assert(d.wf(catalog) && spec_same_marks(c.data, d.data)) by {
        lemma_after_keeps(c, catalog);
        lemma_marks_chain(c.data, d.data, d.data);
    }
    assert(e.wf(catalog) && spec_same_marks(d.data, e.data)) by {
        lemma_fight_keeps(d, catalog);
    }
    assert(f.wf(catalog) && spec_same_marks(e.data, f.data)) by {
        lemma_fight_keeps(e, catalog);
        lemma_marks_chain(e.data, f.data, f.data);
    }
    lemma_marks_chain(stage.data, a.data, b.data);
    lemma_marks_chain(stage.data, b.data, c.data);
    lemma_marks_chain(stage.data, c.data, d.data);
    lemma_marks_chain(stage.data, d.data, e.data);
    lemma_marks_chain(stage.data, e.data, f.data);
}

/// Marking the cards in play as played keeps the stage well formed.
pub proof fn lemma_played_keeps(stage: Stage, catalog: Catalog)
    requires
        stage.wf(catalog),
    ensures
        stage.spec_played().wf(catalog),
        forall|i: int|
            0 <= i < 4 ==> (#[trigger] stage.spec_played().data.hand.cards[i]).played == (
            stage.data.hand.cards[i].played || i == stage.data.card)
                && stage.spec_played().data.hand.cards[i].won == stage.data.hand.cards[i].won,
        forall|i: int|
            0 <= i < 4 ==> (#[trigger] stage.spec_played().data.opp_hand.cards[i]).played == (
            stage.data.opp_hand.cards[i].played || i == stage.data.opp_card)
                && stage.spec_played().data.opp_hand.cards[i].won
                == stage.data.opp_hand.cards[i].won,
{
    let h = stage.spec_played();
    let g = stage;
    assert forall|i: int| 0 <= i < 4 implies {
        &&& (#[trigger] h.data.hand.cards[i]).index == i
        &&& h.data.hand.cards[i].known(catalog)
        &&& h.data.hand.cards[i].played == (g.data.hand.cards[i].played || i == g.data.card)
        &&& h.data.hand.cards[i].won == g.data.hand.cards[i].won
    } by {
        assert(g.data.hand.cards[i].index == i);
        assert(g.data.hand.cards[i].known(catalog));
    }
    assert forall|i: int| 0 <= i < 4 implies {
        &&& (#[trigger] h.data.opp_hand.cards[i]).index == i
        &&& h.data.opp_hand.cards[i].known(catalog)
        &&& h.data.opp_hand.cards[i].played == (g.data.opp_hand.cards[i].played || i
            == g.data.opp_card)
        &&& h.data.opp_hand.cards[i].won == g.data.opp_hand.cards[i].won
    } by {
        assert(g.data.opp_hand.cards[i].index == i);
        assert(g.data.opp_hand.cards[i].known(catalog));
    }
}

/// The resolution of a round keeps the stage well formed and marks the two
/// cards in play as played; it marks no other, and of the cards that are not
/// in play none wins or loses what it has won.
pub proof fn lemma_resolve_keeps(
    stage: Stage,
    fury1: bool,
    pillz1: u8,
    fury2: bool,
    pillz2: u8,
    catalog: Catalog,
)
    requires
        stage.wf(catalog),
    ensures
        stage.spec_resolve(fury1, pillz1, fury2, pillz2, catalog).wf(catalog),
        forall|i: int|
            0 <= i < 4 ==> (#[trigger] stage.spec_resolve(
                fury1,
                pillz1,
                fury2,
                pillz2,
                catalog,
            ).data.hand.cards[i]).played == (stage.data.hand.cards[i].played || i == stage.data.card),
        forall|i: int|
            0 <= i < 4 ==> (#[trigger] stage.spec_resolve(
                fury1,
                pillz1,
                fury2,
                pillz2,
                catalog,
            ).data.opp_hand.cards[i]).played == (stage.data.opp_hand.cards[i].played || i
                == stage.data.opp_card),
        forall|i: int|
            0 <= i < 4 && i != stage.data.card ==> (#[trigger] stage.spec_resolve(
                fury1,
                pillz1,
                fury2,
                pillz2,
                catalog,
            ).data.hand.cards[i]).won == stage.data.hand.cards[i].won,
        forall|i: int|
            0 <= i < 4 && i != stage.data.opp_card ==> (#[trigger] stage.spec_resolve(
                fury1,
                pillz1,
                fury2,
                pillz2,
                catalog,
            ).data.opp_hand.cards[i]).won == stage.data.opp_hand.cards[i].won,
{
    reveal(Stage::spec_resolve);
    let f = stage.spec_fought(fury1, pillz1, fury2, pillz2, catalog);
    let g = f.spec_both(EventTime::END, catalog);
    let h = g.spec_played();
    assert(f.wf(catalog) && spec_same_marks(stage.data, f.data)) by {
        lemma_fought_keeps(stage, fury1, pillz1, fury2, pillz2, catalog);
    }
    assert(g.wf(catalog) && spec_same_marks(stage.data, g.data)) by {
        lemma_both_keeps(f, EventTime::END, catalog);
        lemma_marks_chain(f.data, g.data, g.data);
        lemma_marks_chain(stage.data, f.data, g.data);
    }
    lemma_played_keeps(g, catalog);
    assert forall|i: int| 0 <= i < 4 implies (#[trigger] h.data.hand.cards[i]).played == (
    stage.data.hand.cards[i].played || i == stage.data.card) && (i != stage.data.card
        ==> h.data.hand.cards[i].won == stage.data.hand.cards[i].won) by {
        assert(g.data.hand.cards[i].played == stage.data.hand.cards[i].played);
    }
    assert forall|i: int| 0 <= i < 4 implies (#[trigger] h.data.opp_hand.cards[i]).played == (
    stage.data.opp_hand.cards[i].played || i == stage.data.opp_card) && (i != stage.data.opp_card
        ==> h.data.opp_hand.cards[i].won == stage.data.opp_hand.cards[i].won) by {
        assert(g.data.opp_hand.cards[i].played == stage.data.opp_hand.cards[i].played);
    }
}

/// A match: the round, both players and hands, what each side has selected
/// for the round, both queues, and which side opens the even rounds.
#[derive(Debug)]
pub struct Game {
    pub round: u8,
    pub p1: Player,
    pub p2: Player,
    pub h1: Hand,
    pub h2: Hand,
    pub s1: Option<Selection>,
    pub s2: Option<Selection>,
    pub events1: Events,
    pub events2: Events,
    pub flip: u8,
}

/// A match as a value.
pub struct GameView {
    pub round: u8,
    pub p1: Player,
    pub p2: Player,
    pub h1: Hand,
    pub h2: Hand,
    pub s1: Option<Selection>,
    pub s2: Option<Selection>,
    pub events1: EventsView,
    pub events2: EventsView,
    pub flip: u8,
}

impl View for Game {
    type V = GameView;

    open spec fn view(&self) -> GameView {
        GameView {
            round: self.round,
            p1: self.p1,
            p2: self.p2,
            h1: self.h1,
            h2: self.h2,
            s1: self.s1,
            s2: self.s2,
            events1: self.events1@,
            events2: self.events2@,
            flip: self.flip,
        }
    }
}

impl Clone for Game {
    fn clone(&self) -> (copy: Self)
        ensures
            copy@ == self@,
    {
        Game {
            round: self.round,
            p1: self.p1,
            p2: self.p2,
            h1: self.h1,
            h2: self.h2,
            s1: self.s1,
            s2: self.s2,
            events1: self.events1.clone(),
            events2: self.events2.clone(),
            flip: self.flip,
        }
    }
}

/// A player at the start of a round: what the player had and how the last
/// round ended are remembered.
pub open spec fn spec_snapshot(player: Player) -> Player {
    Player {
        won_previous: player.won,
        life_previous: player.life,
        pillz_previous: player.pillz,
        ..player
    }
}

impl GameView {
    /// The side that opens the round: the player in the rounds whose number
    /// has the parity of `flip`, the opponent in the others.
    pub open spec fn spec_first_turn(self) -> PlayerType {
        if self.round % 2 == self.flip {
            PlayerType::Player
        } else {
            PlayerType::Opponent
        }
    }

    /// The side that selects next: the side that opens the round, unless it
    /// has selected.
    pub open spec fn spec_turn(self) -> PlayerType {
        if self.round % 2 == self.flip {
            if self.s1.is_some() {
                PlayerType::Opponent
            } else {
                PlayerType::Player
            }
        } else if self.s2.is_some() {
            PlayerType::Player
        } else {
            PlayerType::Opponent
        }
    }

    /// The player of the side that selects next.
    pub open spec fn spec_turn_player(self) -> Player {
        if self.spec_turn() == PlayerType::Player {
            self.p1
        } else {
            self.p2
        }
    }

    /// The player of the other side.
    pub open spec fn spec_turn_opponent(self) -> Player {
        if self.spec_turn() == PlayerType::Player {
            self.p2
        } else {
            self.p1
        }
    }

    /// The hand of the side that selects next.
    pub open spec fn spec_turn_hand(self) -> Hand {
        if self.spec_turn() == PlayerType::Player {
            self.h1
        } else {
            self.h2
        }
    }

    /// The hand of the other side.
    pub open spec fn spec_turn_opponent_hand(self) -> Hand {
        if self.spec_turn() == PlayerType::Player {
            self.h2
        } else {
            self.h1
        }
    }

    /// Where the match stands. While exactly one side has selected it is
    /// being played. Else a player without life has lost, and the match is a
    /// draw where neither has any; after four rounds the player with more
    /// life has won, and the match is a draw where they have as much; else it
    /// is being played.
    pub open spec fn spec_status(self) -> GameStatus {
        if self.s1.is_none() != self.s2.is_none() {
            GameStatus::Playing
        } else if self.p1.life == 0 && self.p2.life == 0 {
            GameStatus::Draw
        } else if self.p1.life == 0 {
            GameStatus::Opponent
        } else if self.p2.life == 0 {
            GameStatus::Player
        } else if self.round == 4 {
            if self.p1.life == self.p2.life {
                GameStatus::Draw
            } else if self.p1.life > self.p2.life {
                GameStatus::Player
            } else {
                GameStatus::Opponent
            }
        } else {
            GameStatus::Playing
        }
    }

    /// Whether a player with a hand may make a selection: the card is one of
    /// the four and was not played, and the player has the pillz.
    pub open spec fn spec_legal(selection: Selection, player: Player, hand: Hand) -> bool {
        &&& selection.index < 4
        &&& !hand.cards[selection.index as int].played
        &&& selection.spec_cost() <= player.pillz
    }

    /// Whether the side that selects next may select card `index` with
    /// `pillz` pillz and, if `fury`, fury.
    pub open spec fn spec_can_select(self, index: usize, pillz: u8, fury: bool) -> bool {
        GameView::spec_legal(
            Selection { index, pillz, fury },
            self.spec_turn_player(),
            self.spec_turn_hand(),
        )
    }

    /// The match is in a state that play can reach: at most four rounds were
    /// played and each hand has played as many cards; the cards are in their
    /// places and known to the catalog, and only cards that were played have
    /// won; the queues have their buckets, and no ability of a round waits in
    /// them; and what a side has selected, it may select.
    pub open spec fn wf(self, catalog: Catalog) -> bool {
        &&& self.round <= 4
        &&& self.h1.placed()
        &&& self.h2.placed()
        &&& self.h1.won_in_play()
        &&& self.h2.won_in_play()
        &&& self.h1.known(catalog)
        &&& self.h2.known(catalog)
        &&& self.events1.wf()
        &&& self.events2.wf()
        &&& self.events1.is_idle()
        &&& self.events2.is_idle()
        &&& spec_count_played(self.h1) == self.round
        &&& spec_count_played(self.h2) == self.round
        &&& (self.s1 matches Some(s) ==> GameView::spec_legal(s, self.p1, self.h1))
        &&& (self.s2 matches Some(s) ==> GameView::spec_legal(s, self.p2, self.h2))
    }

    /// The stage at which the round starts once both sides have selected:
    /// each side's queue holds the ability and the bonus of its card, and
    /// both players remember what they had.
    pub open spec fn spec_open(self, catalog: Catalog) -> Stage {
        let s1 = self.s1.unwrap();
        let s2 = self.s2.unwrap();
        let card1 = self.h1.cards[s1.index as int];
        let card2 = self.h2.cards[s2.index as int];
        Stage {
            events1: self.events1.spec_add(catalog.ability(card1.ability_id)@).spec_add(
                catalog.ability(card1.bonus_id)@,
            ),
            events2: self.events2.spec_add(catalog.ability(card2.ability_id)@).spec_add(
                catalog.ability(card2.bonus_id)@,
            ),
            data: BattleData {
                round: self.round,
                first: self.spec_first_turn() == PlayerType::Player,
                player: spec_snapshot(self.p1),
                hand: self.h1,
                card: s1.index,
                player_pillz_used: s1.spec_cost() as u8,
                opp: spec_snapshot(self.p2),
                opp_hand: self.h2,
                opp_card: s2.index,
                opp_pillz_used: s2.spec_cost() as u8,
            },
        }
    }

    /// The match after the round was resolved with what both sides have
    /// selected: the players and the hands are as the resolution left them,
    /// the queues hold the lasting abilities only, and the round is the next.
    pub open spec fn spec_battle(self, catalog: Catalog) -> GameView {
        let s1 = self.s1.unwrap();
        let s2 = self.s2.unwrap();
        let end = self.spec_open(catalog).spec_resolve(s1.fury, s1.pillz, s2.fury, s2.pillz, catalog);
        GameView {
            round: (self.round + 1) as u8,
            p1: end.data.player,
            p2: end.data.opp,
            h1: end.data.hand,
            h2: end.data.opp_hand,
            s1: self.s1,
            s2: self.s2,
            events1: end.events1.spec_cleared(),
            events2: end.events2.spec_cleared(),
            flip: self.flip,
        }
    }

    /// Whether a selection made now completes the round.
    pub open spec fn spec_completes(self) -> bool {
        if self.round % 2 == self.flip {
            self.s1.is_some()
        } else {
            self.s2.is_some()
        }
    }

    /// The match after the side that selects next has made a selection.
    /// Where the other side has selected, the round is resolved and both
    /// selections are gone; else the selection is kept.
    pub open spec fn spec_select(self, selection: Selection, catalog: Catalog) -> GameView {
        if self.round % 2 == self.flip {
            if self.s1.is_some() {
                GameView {
                    s1: None,
                    s2: None,
                    ..(GameView { s2: Some(selection), ..self }).spec_battle(catalog)
                }
            } else {
                GameView { s1: Some(selection), ..self }
            }
        } else if self.s2.is_some() {
            GameView {
                s1: None,
                s2: None,
                ..(GameView { s1: Some(selection), ..self }).spec_battle(catalog)
            }
        } else {
            GameView { s2: Some(selection), ..self }
        }
    }

    /// The match after the round was resolved with the two selections.
    pub open spec fn spec_select_both(self, s1: Selection, s2: Selection, catalog: Catalog) -> GameView {
        GameView {
            s1: None,
            s2: None,
            ..(GameView { s1: Some(s1), s2: Some(s2), ..self }).spec_battle(catalog)
        }
    }
}

/// Playing one more card of a hand that has played some raises the count by
/// one; and a hand with an unplayed card has played fewer than four.
pub proof fn lemma_count_played(before: Hand, after: Hand, at: int)
    requires
        0 <= at < 4,
        !before.cards[at].played,
        forall|i: int|
            0 <= i < 4 ==> (#[trigger] after.cards[i]).played == (before.cards[i].played || i == at),
    ensures
        spec_count_played(after) == spec_count_played(before) + 1,
        spec_count_played(before) < 4,
{
    assert(after.cards[0].played == (before.cards[0].played || 0 == at));
    assert(after.cards[1].played == (before.cards[1].played || 1 == at));
    assert(after.cards[2].played == (before.cards[2].played || 2 == at));
    assert(after.cards[3].played == (before.cards[3].played || 3 == at));
}

/// Where both sides may select what they have selected, the round starts from
/// a well-formed stage and ends in a well-formed match in which no selection
/// is pending.
pub proof fn lemma_battle_keeps_wf(game: GameView, catalog: Catalog)
    requires
        game.wf(catalog),
        game.s1.is_some(),
        game.s2.is_some(),
    ensures
        game.spec_open(catalog).wf(catalog),
        game.round < 4,
        (GameView { s1: None, s2: None, ..game.spec_battle(catalog) }).wf(catalog),
{
    let s1 = game.s1.unwrap();
    let s2 = game.s2.unwrap();
    let card1 = game.h1.cards[s1.index as int];
    let card2 = game.h2.cards[s2.index as int];
    let stage = game.spec_open(catalog);
    assert(stage.wf(catalog)) by {
        assert(card1.known(catalog) && card2.known(catalog));
        crate::battle::lemma_add_keeps_wf(game.events1, catalog.ability(card1.ability_id)@);
        crate::battle::lemma_add_keeps_wf(
            game.events1.spec_add(catalog.ability(card1.ability_id)@),
            catalog.ability(card1.bonus_id)@,
        );
        crate::battle::lemma_add_keeps_wf(game.events2, catalog.ability(card2.ability_id)@);
        crate::battle::lemma_add_keeps_wf(
            game.events2.spec_add(catalog.ability(card2.ability_id)@),
            catalog.ability(card2.bonus_id)@,
        );
    }
    let end = stage.spec_resolve(s1.fury, s1.pillz, s2.fury, s2.pillz, catalog);
    assert(end.wf(catalog) && spec_count_played(end.data.hand) == game.round + 1
        && spec_count_played(end.data.opp_hand) == game.round + 1 && game.round < 4) by {
        lemma_resolve_keeps(stage, s1.fury, s1.pillz, s2.fury, s2.pillz, catalog);
        lemma_count_played(game.h1, end.data.hand, s1.index as int);
        lemma_count_played(game.h2, end.data.opp_hand, s2.index as int);
    }
    let after = GameView { s1: None, s2: None, ..game.spec_battle(catalog) };
    assert(after.h1 == end.data.hand);
    assert(after.h2 == end.data.opp_hand);
    assert(after.events1.wf() && after.events2.wf());
    assert(after.h1.won_in_play() && after.h2.won_in_play()) by {
        lemma_resolve_keeps(stage, s1.fury, s1.pillz, s2.fury, s2.pillz, catalog);
        assert forall|i: int| 0 <= i < 4 implies (#[trigger] end.data.hand.cards[i]).won
            ==> end.data.hand.cards[i].played by {
            assert(game.h1.cards[i].won ==> game.h1.cards[i].played);
        }
        assert forall|i: int| 0 <= i < 4 implies (#[trigger] end.data.opp_hand.cards[i]).won
            ==> end.data.opp_hand.cards[i].played by {
            assert(game.h2.cards[i].won ==> game.h2.cards[i].played);
        }
    }
}

/// Runs a checkpoint for both sides: the first side, then the second.
fn run_both(
    events1: &mut Events,
    events2: &mut Events,
    time: EventTime,
    data: &mut BattleData,
    catalog: &Catalog,
)
    requires
        old(events1)@.wf(),
        old(events2)@.wf(),
        old(data).wf(*catalog),
    ensures
        (Stage { events1: final(events1)@, events2: final(events2)@, data: *final(data) }) == (Stage {
            events1: old(events1)@,
            events2: old(events2)@,
            data: *old(data),
        }).spec_both(time, *catalog),
        final(events1)@.wf(),
        final(events2)@.wf(),
        final(data).wf(*catalog),
{
    proof {
        reveal(Stage::spec_both);
    }
    events1.execute(time, data, catalog);
    data.mirror();
    events2.execute(time, data, catalog);
    data.mirror();
}

/// Looks again at the cancels of both sides until nothing changes, at most
/// three times.
fn settle(events1: &Events, events2: &Events, data: &mut BattleData, catalog: &Catalog)
    requires
        events1@.wf(),
        events2@.wf(),
        old(data).wf(*catalog),
    ensures
        (Stage { events1: events1@, events2: events2@, data: *final(data) }) == (Stage {
            events1: events1@,
            events2: events2@,
            data: *old(data),
        }).spec_settle(3),
        final(data).wf(*catalog),
{
    let mut left: u8 = 3;
    let ghost start = Stage { events1: events1@, events2: events2@, data: *data };
    while left > 0
        invariant
            left <= 3,
            start == (Stage { events1: events1@, events2: events2@, data: *old(data) }),
            events1@.wf(),
            events2@.wf(),
            data.wf(*catalog),
            start.spec_settle(3) == (Stage {
                events1: events1@,
                events2: events2@,
                data: *data,
            }).spec_settle(left as nat),
        decreases left,
    {
        let ghost stage = Stage { events1: events1@, events2: events2@, data: *data };
        proof {
            lemma_check_keeps(stage, *catalog);
        }
        let changed1 = events1.check_cancels(data);
        data.mirror();
        let changed2 = events2.check_cancels(data);
        data.mirror();
        proof {
            let next = Stage { events1: events1@, events2: events2@, data: *data };
            assert(stage.spec_check() == (changed1 || changed2, next));
            assert(stage.spec_settle(left as nat) == if changed1 || changed2 {
                next.spec_settle((left - 1) as nat)
            } else {
                next
            });
        }
        if !changed1 && !changed2 {
            return ;
        }
        left -= 1;
    }
}

/// Gives the card of each side that declared fury 2 more damage.
fn apply_fury(data: &mut BattleData, fury1: bool, fury2: bool)
    requires
        old(data).placed(),
    ensures
        *final(data) == spec_with_fury(*old(data), fury1, fury2),
{
    if fury1 {
        let mut card = data.acting_card();
        card.damage.value = card.damage.value.saturating_add(2);
        data.set_acting(card);
    }
    if fury2 {
        let mut card = data.opposing_card();
        card.damage.value = card.damage.value.saturating_add(2);
        data.set_opposing(card);
    }
}

/// Computes the attack of both cards in play.
fn set_attacks(data: &mut BattleData, pillz1: u8, pillz2: u8)
    requires
        old(data).placed(),
    ensures
        *final(data) == spec_with_attacks(*old(data), pillz1, pillz2),
{
    let mut card1 = data.acting_card();
    let mut card2 = data.opposing_card();
    assert((pillz1 + 1) * card1.power.value <= 256 * 255) by (nonlinear_arith)
        requires
            pillz1 <= 255,
            card1.power.value <= 255,
    ;
    assert((pillz2 + 1) * card2.power.value <= 256 * 255) by (nonlinear_arith)
        requires
            pillz2 <= 255,
            card2.power.value <= 255,
    ;
    card1.attack.value = ((pillz1 as u32 + 1) * card1.power.value as u32) as u16;
    card2.attack.value = ((pillz2 as u32 + 1) * card2.power.value as u32) as u16;
    data.set_acting(card1);
    data.set_opposing(card2);
}

/// What is left of `have` after `loss` was taken from it, and at least 0.
fn hurt(have: u8, loss: u8) -> (left: u8)
    ensures
        left == spec_hurt(have, loss),
{
    have.saturating_sub(loss)
}

/// Lets the two cards in play fight.
fn fight(data: &mut BattleData)
    requires
        old(data).placed(),
    ensures
        *final(data) == spec_after_fight(*old(data)),
{
    let mut card1 = data.acting_card();
    let mut card2 = data.opposing_card();
    let attack1 = card1.attack.value;
    let attack2 = card2.attack.value;
    if attack1 > attack2 || (attack1 == attack2 && (card1.level < card2.level || (card1.level
        == card2.level && data.first))) {
        data.opp.life = hurt(data.opp.life, card1.damage.value);
        card1.won = true;
        data.player.won = RoundWin::WIN;
        data.opp.won = RoundWin::LOSE;
        data.set_acting(card1);
    } else {
        data.player.life = hurt(data.player.life, card2.damage.value);
        card2.won = true;
        data.opp.won = RoundWin::WIN;
        data.player.won = RoundWin::LOSE;
        data.set_opposing(card2);
    }
}

/// Takes from both players the pillz they spent.
fn pay(data: &mut BattleData)
    ensures
        *final(data) == spec_after_payment(*old(data)),
{
    data.player.pillz = hurt(data.player.pillz, data.player_pillz_used);
    data.opp.pillz = hurt(data.opp.pillz, data.opp_pillz_used);
}

/// Marks both cards in play as played.
fn mark_played(data: &mut BattleData)
    requires
        old(data).placed(),
    ensures
        *final(data) == spec_with_played(*old(data)),
{
    let mut card1 = data.acting_card();
    let mut card2 = data.opposing_card();
    card1.played = true;
    card2.played = true;
    data.set_acting(card1);
    data.set_opposing(card2);
}

impl GameView {
    /// The queue of a side at the start of a match: it holds the ability of
    /// the hand's leader, if the hand has one, among the lasting abilities.
    pub open spec fn spec_opening_queue(hand: Hand, catalog: Catalog) -> EventsView {
        match hand.spec_leader(catalog) {
            Some(i) => spec_empty_queue().spec_add_global(
                catalog.ability(hand.cards[i].ability_id)@,
            ),
            None => spec_empty_queue(),
        }
    }

    /// The match between two hands before anything was selected.
    pub open spec fn spec_new(h1: Hand, h2: Hand, catalog: Catalog) -> GameView {
        GameView {
            round: 0,
            p1: spec_new_player(PlayerType::Player),
            p2: spec_new_player(PlayerType::Opponent),
            h1,
            h2,
            s1: None,
            s2: None,
            events1: GameView::spec_opening_queue(h1, catalog),
            events2: GameView::spec_opening_queue(h2, catalog),
            flip: 0,
        }
    }

    /// Whether a card of the player's hand has an ability or a bonus that the
    /// catalog does not define as a plain ability or bonus.
    pub open spec fn spec_has_global(self, catalog: Catalog) -> bool {
        exists|i: int|
            0 <= i < 4 && (spec_is_global(
                catalog.ability((#[trigger] self.h1.cards[i]).ability_id).ability_type,
            ) || spec_is_global(catalog.ability(self.h1.cards[i].bonus_id).ability_type))
    }
}

/// A player at the start of a match.
pub open spec fn spec_new_player(player_type: PlayerType) -> Player {
    Player {
        player_type,
        life: 12,
        life_previous: 12,
        pillz: 12,
        pillz_previous: 12,
        won: RoundWin::NONE,
        won_previous: RoundWin::NONE,
    }
}

/// Whether a kind of ability is one of the three that last.
pub open spec fn spec_is_global(kind: AbilityType) -> bool {
    kind == AbilityType::Global || kind == AbilityType::GlobalAbility || kind
        == AbilityType::GlobalBonus
}

fn opening_queue(hand: &Hand, catalog: &Catalog) -> (queue: Events)
    requires
        hand.known(*catalog),
    ensures
        queue@ == GameView::spec_opening_queue(*hand, *catalog),
        queue@.wf(),
{
    let mut queue = Events::default();
    match hand.get_leader(catalog) {
        Some(leader) => {
            queue.add_global(leader.get_ability(catalog));
        },
        None => {},
    }
    queue
}

impl Game {
    /// A match between two hands: round 0, nothing selected, the player
    /// opening the even rounds, and each side's leader ability waiting.
    pub fn new(h1: Hand, h2: Hand, catalog: &Catalog) -> (game: Self)
        requires
            h1.known(*catalog),
            h2.known(*catalog),
        ensures
            game@ == GameView::spec_new(h1, h2, *catalog),
            h1.placed() && h2.placed() && h1.fresh() && h2.fresh() ==> game@.wf(*catalog),
    {
        proof {
            if h1.fresh() && h2.fresh() {
                assert(!h1.cards[0].played && !h1.cards[1].played && !h1.cards[2].played
                    && !h1.cards[3].played);
                assert(!h2.cards[0].played && !h2.cards[1].played && !h2.cards[2].played
                    && !h2.cards[3].played);
            }
        }
        let events1 = opening_queue(&h1, catalog);
        let events2 = opening_queue(&h2, catalog);
        Game {
            round: 0,
            p1: Player::new(PlayerType::Player),
            p2: Player::new(PlayerType::Opponent),
            h1,
            h2,
            s1: None,
            s2: None,
            events1,
            events2,
            flip: 0,
        }
    }

    /// A match between four cards of the clan GHEIST and four of the clan
    /// Nightmare, picked at random from the catalog; none where the catalog
    /// cannot fill the two hands.
    pub fn random(catalog: &Catalog) -> (game: Option<Self>)
        ensures
            crate::card::spec_can_fill(*catalog, crate::types::Clan::GHEIST)
                && crate::card::spec_can_fill(*catalog, crate::types::Clan::Nightmare)
                ==> game.is_some(),
            game matches Some(g) ==> g@.wf(*catalog) && g@ == GameView::spec_new(g.h1, g.h2, *catalog)
                && g.h1.is_drawn_of(crate::types::Clan::GHEIST, *catalog) && g.h2.is_drawn_of(
                crate::types::Clan::Nightmare,
                *catalog,
            ),
    {
        let h1 = match Hand::random_hand_clan(catalog, crate::types::Clan::GHEIST) {
            Some(hand) => hand,
            None => {
                return None;
            },
        };
        let h2 = match Hand::random_hand_clan(catalog, crate::types::Clan::Nightmare) {
            Some(hand) => hand,
            None => {
                return None;
            },
        };
        assert(!h1.cards[0].played && !h1.cards[1].played && !h1.cards[2].played
            && !h1.cards[3].played);
        assert(!h2.cards[0].played && !h2.cards[1].played && !h2.cards[2].played
            && !h2.cards[3].played);
        Game::with_fresh_hands(h1, h2, catalog)
    }

    /// A match between two hands of which no card was played or has won; none
    /// where a card of the hands was played or has won.
    pub fn with_fresh_hands(h1: Hand, h2: Hand, catalog: &Catalog) -> (game: Option<Self>)
        requires
            h1.known(*catalog),
            h2.known(*catalog),
            h1.placed(),
            h2.placed(),
        ensures
            game.is_some() == (h1.fresh() && h2.fresh()),
            game matches Some(g) ==> g@ == GameView::spec_new(h1, h2, *catalog) && g@.wf(*catalog),
    {
        let mut i: usize = 0;
        while i < 4
            invariant
                i <= 4,
                forall|j: int|
                    0 <= j < i ==> !(#[trigger] h1.cards[j]).played && !h2.cards[j].played
                        && !h1.cards[j].won && !h2.cards[j].won,
            decreases 4 - i,
        {
            if h1.cards[i].played || h2.cards[i].played || h1.cards[i].won || h2.cards[i].won {
                return None;
            }
            i += 1;
        }
        assert(!h1.cards[0].played && !h1.cards[1].played && !h1.cards[2].played
            && !h1.cards[3].played);
        assert(!h2.cards[0].played && !h2.cards[1].played && !h2.cards[2].played
            && !h2.cards[3].played);
        Some(Game::new(h1, h2, catalog))
    }

    /// Whether a card of the player's hand has an ability or a bonus of a
    /// lasting kind.
    pub fn has_global(&self, catalog: &Catalog) -> (found: bool)
        requires
            self.h1.known(*catalog),
        ensures
            found == self@.spec_has_global(*catalog),
    {
        let mut i: usize = 0;
        while i < 4
            invariant
                i <= 4,
                self.h1.known(*catalog),
                forall|j: int|
                    0 <= j < i ==> !(spec_is_global(
                        catalog.ability((#[trigger] self.h1.cards[j]).ability_id).ability_type,
                    ) || spec_is_global(catalog.ability(self.h1.cards[j].bonus_id).ability_type)),
            decreases 4 - i,
        {
            let card = self.h1.cards[i];
            assert(card.known(*catalog));
            match card.get_ability(catalog).ability_type {
                AbilityType::Global | AbilityType::GlobalAbility | AbilityType::GlobalBonus => {
                    return true;
                },
                _ => {},
            }
            match card.get_bonus(catalog).ability_type {
                AbilityType::Global | AbilityType::GlobalAbility | AbilityType::GlobalBonus => {
                    return true;
                },
                _ => {},
            }
            i += 1;
        }
        false
    }

    /// Where the match stands.
    pub fn status(&self) -> (status: GameStatus)
        ensures
            status == self@.spec_status(),
    {
        if self.s1.is_none() != self.s2.is_none() {
            return GameStatus::Playing;
        }
        let l1 = self.p1.life;
        let l2 = self.p2.life;
        if l1 == 0 && l2 == 0 {
            GameStatus::Draw
        } else if l1 == 0 {
            GameStatus::Opponent
        } else if l2 == 0 {
            GameStatus::Player
        } else if self.round == 4 {
            if l1 == l2 {
                GameStatus::Draw
            } else if l1 > l2 {
                GameStatus::Player
            } else {
                GameStatus::Opponent
            }
        } else {
            GameStatus::Playing
        }
    }

    /// The side that selects next.
    pub fn get_turn(&self) -> (turn: PlayerType)
        ensures
            turn == self@.spec_turn(),
    {
        if self.round % 2 == self.flip {
            if self.s1.is_some() {
                PlayerType::Opponent
            } else {
                PlayerType::Player
            }
        } else if self.s2.is_some() {
            PlayerType::Player
        } else {
            PlayerType::Opponent
        }
    }

    /// The player of the side that selects next.
    pub fn get_turn_player(&self) -> (player: &Player)
        ensures
            *player == self@.spec_turn_player(),
    {
        if self.get_turn() == PlayerType::Player {
            &self.p1
        } else {
            &self.p2
        }
    }

    /// The player of the side that does not select next.
    pub fn get_turn_opponent(&self) -> (player: &Player)
        ensures
            *player == self@.spec_turn_opponent(),
    {
        if self.get_turn() == PlayerType::Player {
            &self.p2
        } else {
            &self.p1
        }
    }

    /// The hand of the side that selects next.
    pub fn get_turn_hand(&self) -> (hand: &Hand)
        ensures
            *hand == self@.spec_turn_hand(),
    {
        if self.get_turn() == PlayerType::Player {
            &self.h1
        } else {
            &self.h2
        }
    }

    /// The hand of the side that does not select next.
    pub fn get_turn_opponent_hand(&self) -> (hand: &Hand)
        ensures
            *hand == self@.spec_turn_opponent_hand(),
    {
        if self.get_turn() == PlayerType::Player {
            &self.h2
        } else {
            &self.h1
        }
    }

    /// The side that opens the round.
    pub fn get_first_turn(&self) -> (turn: PlayerType)
        ensures
            turn == self@.spec_first_turn(),
    {
        if self.round % 2 == self.flip {
            PlayerType::Player
        } else {
            PlayerType::Opponent
        }
    }

    /// Whether a side has selected.
    pub fn has_someone_selected(&self) -> (selected: bool)
        ensures
            selected == (self.s1.is_some() || self.s2.is_some()),
    {
        self.s1.is_some() || self.s2.is_some()
    }

    /// Resolves the round with what both sides have selected: the outcome is
    /// a function of the match and the catalog alone. The selections stay
    /// until they are cleared.
    pub fn battle(&mut self, catalog: &Catalog)
        requires
            old(self)@.wf(*catalog),
            old(self).s1.is_some(),
            old(self).s2.is_some(),
        ensures
            final(self)@ == old(self)@.spec_battle(*catalog),
            (GameView { s1: None, s2: None, ..final(self)@ }).wf(*catalog),
    {
        proof {
            lemma_battle_keeps_wf(self@, *catalog);
        }
        let s1 = self.s1.unwrap();
        let s2 = self.s2.unwrap();
        let mut data = self.open_round(catalog);
        Game::resolve(
            &mut self.events1,
            &mut self.events2,
            &mut data,
            s1.fury,
            s1.pillz,
            s2.fury,
            s2.pillz,
            catalog,
        );
        self.events1.clear();
        self.events2.clear();
        self.p1 = data.player;
        self.p2 = data.opp;
        self.h1 = data.hand;
        self.h2 = data.opp_hand;
        self.round += 1;
    }

    /// Queues the abilities and bonuses of the two selected cards and sets
    /// the round up as the player sees it.
    fn open_round(&mut self, catalog: &Catalog) -> (data: BattleData)
        requires
            old(self)@.wf(*catalog),
            old(self).s1.is_some(),
            old(self).s2.is_some(),
        ensures
            (Stage { events1: final(self).events1@, events2: final(self).events2@, data }) == old(
                self,
            )@.spec_open(*catalog),
            final(self).round == old(self).round,
            final(self).p1 == old(self).p1,
            final(self).p2 == old(self).p2,
            final(self).h1 == old(self).h1,
            final(self).h2 == old(self).h2,
            final(self).s1 == old(self).s1,
            final(self).s2 == old(self).s2,
            final(self).flip == old(self).flip,
    {
        let s1 = self.s1.unwrap();
        let s2 = self.s2.unwrap();
        let first = self.get_first_turn() == PlayerType::Player;
        let total1 = s1.cost() as u8;
        let total2 = s2.cost() as u8;
        let card1 = self.h1.cards[s1.index];
        let card2 = self.h2.cards[s2.index];
        assert(card1.known(*catalog) && card2.known(*catalog));
        self.events1.add(card1.get_ability(catalog));
        self.events2.add(card2.get_ability(catalog));
        self.events1.add(card1.get_bonus(catalog));
        self.events2.add(card2.get_bonus(catalog));
        let mut p1 = self.p1;
        let mut p2 = self.p2;
        p1.won_previous = p1.won;
        p2.won_previous = p2.won;
        p1.life_previous = p1.life;
        p2.life_previous = p2.life;
        p1.pillz_previous = p1.pillz;
        p2.pillz_previous = p2.pillz;
        BattleData {
            round: self.round,
            first,
            player: p1,
            hand: self.h1,
            card: s1.index,
            player_pillz_used: total1,
            opp: p2,
            opp_hand: self.h2,
            opp_card: s2.index,
            opp_pillz_used: total2,
        }
    }

    /// Resolves a round from its first checkpoint to the marking of the
    /// cards.
    fn resolve(
        events1: &mut Events,
        events2: &mut Events,
        data: &mut BattleData,
        fury1: bool,
        pillz1: u8,
        fury2: bool,
        pillz2: u8,
        catalog: &Catalog,
    )
        requires
            old(events1)@.wf(),
            old(events2)@.wf(),
            old(data).wf(*catalog),
        ensures
            (Stage { events1: final(events1)@, events2: final(events2)@, data: *final(data) }) == (Stage {
                events1: old(events1)@,
                events2: old(events2)@,
                data: *old(data),
            }).spec_resolve(fury1, pillz1, fury2, pillz2, *catalog),
            final(events1)@.wf(),
            final(events2)@.wf(),
    {
        proof {
            reveal(Stage::spec_resolve);
        }
        Game::fought(events1, events2, data, fury1, pillz1, fury2, pillz2, catalog);
        run_both(events1, events2, EventTime::END, data, catalog);
        mark_played(data);
    }

    /// Resolves a round up to the fight and the payment.
    fn fought(
        events1: &mut Events,
        events2: &mut Events,
        data: &mut BattleData,
        fury1: bool,
        pillz1: u8,
        fury2: bool,
        pillz2: u8,
        catalog: &Catalog,
    )
        requires
            old(events1)@.wf(),
            old(events2)@.wf(),
            old(data).wf(*catalog),
        ensures
            (Stage { events1: final(events1)@, events2: final(events2)@, data: *final(data) }) == (Stage {
                events1: old(events1)@,
                events2: old(events2)@,
                data: *old(data),
            }).spec_fought(fury1, pillz1, fury2, pillz2, *catalog),
            final(events1)@.wf(),
            final(events2)@.wf(),
            final(data).wf(*catalog),
    {
        let ghost open = Stage { events1: events1@, events2: events2@, data: *data };
        Game::before(events1, events2, data, catalog);
        let ghost armed = Stage { events1: events1@, events2: events2@, data: *data };
        proof {
            lemma_arming_keeps(armed, fury1, pillz1, fury2, pillz2, *catalog);
            lemma_arming_keeps(
                armed.spec_fury(fury1, fury2),
                fury1,
                pillz1,
                fury2,
                pillz2,
                *catalog,
            );
        }
        apply_fury(data, fury1, fury2);
        set_attacks(data, pillz1, pillz2);
        Game::after(events1, events2, data, catalog);
        let ghost met = Stage { events1: events1@, events2: events2@, data: *data };
        proof {
            lemma_fight_keeps(met, *catalog);
            lemma_fight_keeps(met.spec_fight(), *catalog);
        }
        fight(data);
        pay(data);
    }

    /// Runs the checkpoints before the fight for both sides.
    fn before(events1: &mut Events, events2: &mut Events, data: &mut BattleData, catalog: &Catalog)
        requires
            old(events1)@.wf(),
            old(events2)@.wf(),
            old(data).wf(*catalog),
        ensures
            (Stage { events1: final(events1)@, events2: final(events2)@, data: *final(data) }) == (Stage {
                events1: old(events1)@,
                events2: old(events2)@,
                data: *old(data),
            }).spec_before(*catalog),
            final(events1)@.wf(),
            final(events2)@.wf(),
            final(data).wf(*catalog),
    {
        run_both(events1, events2, EventTime::START, data, catalog);
        run_both(events1, events2, EventTime::PRE4, data, catalog);
        settle(events1, events2, data, catalog);
        run_both(events1, events2, EventTime::PRE3, data, catalog);
        run_both(events1, events2, EventTime::PRE2, data, catalog);
        run_both(events1, events2, EventTime::PRE1, data, catalog);
    }

    /// Runs the checkpoints after the attacks were computed for both sides.
    fn after(events1: &mut Events, events2: &mut Events, data: &mut BattleData, catalog: &Catalog)
        requires
            old(events1)@.wf(),
            old(events2)@.wf(),
            old(data).wf(*catalog),
        ensures
            (Stage { events1: final(events1)@, events2: final(events2)@, data: *final(data) }) == (Stage {
                events1: old(events1)@,
                events2: old(events2)@,
                data: *old(data),
            }).spec_after(*catalog),
            final(events1)@.wf(),
            final(events2)@.wf(),
            final(data).wf(*catalog),
    {
        run_both(events1, events2, EventTime::POST1, data, catalog);
        run_both(events1, events2, EventTime::POST2, data, catalog);
        run_both(events1, events2, EventTime::POST3, data, catalog);
        run_both(events1, events2, EventTime::POST4, data, catalog);
    }

    /// Whether the side that selects next may select card `index` with
    /// `pillz` pillz and, if `fury`, fury.
    pub fn can_select(&self, index: usize, pillz: u8, fury: bool) -> (can: bool)
        ensures
            can == self@.spec_can_select(index, pillz, fury),
    {
        if index > 3 {
            return false;
        }
        let pool = self.get_turn_player().pillz;
        let cost = Selection { index, pillz, fury }.cost();
        if cost > pool as u16 || self.get_turn_hand().cards[index].played {
            return false;
        }
        true
    }

    /// Makes the selection of the side that selects next, and says whether
    /// that resolved the round.
    pub fn select(&mut self, index: usize, pillz: u8, fury: bool, catalog: &Catalog) -> (battled: bool)
        requires
            old(self)@.wf(*catalog),
            old(self)@.spec_can_select(index, pillz, fury),
        ensures
            final(self)@ == old(self)@.spec_select(Selection { index, pillz, fury }, *catalog),
            battled == old(self)@.spec_completes(),
            final(self)@.wf(*catalog),
            battled ==> final(self).round == old(self).round + 1 && final(self).s1.is_none()
                && final(self).s2.is_none(),
            !battled ==> final(self).round == old(self).round,
    {
        let s = Some(Selection { index, pillz, fury });
        if self.round % 2 == self.flip {
            if self.s1.is_some() {
                self.s2 = s;
                self.battle(catalog);
                self.s1 = None;
                self.s2 = None;
                true
            } else {
                self.s1 = s;
                false
            }
        } else if self.s2.is_some() {
            self.s1 = s;
            self.battle(catalog);
            self.s1 = None;
            self.s2 = None;
            true
        } else {
            self.s2 = s;
            false
        }
    }

    /// Resolves the round with the two selections.
    pub fn select_both(&mut self, s1: Selection, s2: Selection, catalog: &Catalog)
        requires
            old(self)@.wf(*catalog),
            GameView::spec_legal(s1, old(self).p1, old(self).h1),
            GameView::spec_legal(s2, old(self).p2, old(self).h2),
        ensures
            final(self)@ == old(self)@.spec_select_both(s1, s2, *catalog),
            final(self)@.wf(*catalog),
            final(self).round == old(self).round + 1,
    {
        self.s1 = Some(s1);
        self.s2 = Some(s2);
        self.battle(catalog);
        self.s1 = None;
        self.s2 = None;
    }

    /// Forgets what the sides have selected.
    pub fn clear_selection(&mut self)
        ensures
            final(self)@ == (GameView { s1: None, s2: None, ..old(self)@ }),
    {
        self.s1 = None;
        self.s2 = None;
    }
}

/// After a round the card of the side that won the fight is marked as having
/// won and the card of the other side is not; one side has won and the other
/// has lost.
pub proof fn lemma_round_marks_winner(game: GameView, s1: Selection, s2: Selection, catalog: Catalog)
    requires
        game.wf(catalog),
        GameView::spec_legal(s1, game.p1, game.h1),
        GameView::spec_legal(s2, game.p2, game.h2),
    ensures
        ({
            let after = game.spec_select_both(s1, s2, catalog);
            &&& after.h1.cards[s1.index as int].won == (after.p1.won == RoundWin::WIN)
            &&& after.h2.cards[s2.index as int].won == (after.p2.won == RoundWin::WIN)
            &&& (after.p1.won == RoundWin::WIN && after.p2.won == RoundWin::LOSE) || (after.p1.won
                == RoundWin::LOSE && after.p2.won == RoundWin::WIN)
        }),
{
    let ready = GameView { s1: Some(s1), s2: Some(s2), ..game };
    let open = ready.spec_open(catalog);
    let before = open.spec_before(catalog);
    let furious = before.spec_fury(s1.fury, s2.fury);
    let armed = furious.spec_attacks(s1.pillz, s2.pillz);
    let met = armed.spec_after(catalog);
    let fought = met.spec_fight();
    let paid = fought.spec_pay();
    let ended = paid.spec_both(EventTime::END, catalog);
    let end = open.spec_resolve(s1.fury, s1.pillz, s2.fury, s2.pillz, catalog);
    assert(open.wf(catalog)) by {
        lemma_battle_keeps_wf(ready, catalog);
    }
    assert(!open.data.acting().won && !open.data.opposing().won) by {
        assert(game.h1.cards[s1.index as int].won ==> game.h1.cards[s1.index as int].played);
        assert(game.h2.cards[s2.index as int].won ==> game.h2.cards[s2.index as int].played);
    }
    assert(met.wf(catalog) && spec_steady(open.data, met.data)) by {
        lemma_before_keeps(open, catalog);
        lemma_arming_keeps(before, s1.fury, s1.pillz, s2.fury, s2.pillz, catalog);
        lemma_arming_keeps(furious, s1.fury, s1.pillz, s2.fury, s2.pillz, catalog);
        lemma_after_keeps(armed, catalog);
        lemma_steady_chain(open.data, before.data, furious.data);
        lemma_steady_chain(open.data, furious.data, armed.data);
        lemma_steady_chain(open.data, armed.data, met.data);
    }
    assert(!met.data.acting().won && !met.data.opposing().won) by {
        assert(spec_same_card(
            open.data.hand.cards[s1.index as int],
            met.data.hand.cards[s1.index as int],
        ));
        assert(spec_same_card(
            open.data.opp_hand.cards[s2.index as int],
            met.data.opp_hand.cards[s2.index as int],
        ));
    }
    assert(fought.wf(catalog) && fought.data.card == met.data.card && fought.data.opp_card
        == met.data.opp_card && fought.data.acting().won == spec_first_wins(met.data)
        && fought.data.opposing().won == !spec_first_wins(met.data)) by {
        lemma_fight_keeps(met, catalog);
    }
    assert(ended.wf(catalog) && spec_steady(fought.data, ended.data)) by {
        lemma_fight_keeps(fought, catalog);
        lemma_both_keeps(paid, EventTime::END, catalog);
        lemma_steady_chain(fought.data, paid.data, ended.data);
    }
    assert(ended.data.acting().won == fought.data.acting().won && ended.data.opposing().won
        == fought.data.opposing().won) by {
        assert(spec_same_card(
            fought.data.hand.cards[s1.index as int],
            ended.data.hand.cards[s1.index as int],
        ));
        assert(spec_same_card(
            fought.data.opp_hand.cards[s2.index as int],
            ended.data.opp_hand.cards[s2.index as int],
        ));
    }
    assert(end == ended.spec_played()) by {
        reveal(Stage::spec_resolve);
    }
    lemma_played_keeps(ended, catalog);
    assert(end.data.hand.cards[s1.index as int].won == ended.data.hand.cards[s1.index as int].won);
    assert(end.data.opp_hand.cards[s2.index as int].won
        == ended.data.opp_hand.cards[s2.index as int].won);
}

/// Resolving a round is a function of the match, the two selections and the
/// catalog: matches that are the same as values, resolved with the same
/// selections, end the same, with the same players, hands, queues and round.
pub proof fn lemma_resolve_round_deterministic(
    a: Game,
    b: Game,
    s1: Selection,
    s2: Selection,
    catalog: Catalog,
)
    requires
        a@ == b@,
    ensures
        a@.spec_battle(catalog) == b@.spec_battle(catalog),
        (GameView { s1: Some(s1), s2: Some(s2), ..a@ }).spec_battle(catalog) == (GameView {
            s1: Some(s1),
            s2: Some(s2),
            ..b@
        }).spec_battle(catalog),
        a@.spec_select_both(s1, s2, catalog) == b@.spec_select_both(s1, s2, catalog),
        a@.spec_select(s1, catalog).spec_select(s2, catalog) == b@.spec_select(
            s1,
            catalog,
        ).spec_select(s2, catalog),
{
}

/// At most two abilities of the round wait on each side.
pub open spec fn spec_calm(stage: Stage) -> bool {
    spec_waiting(stage.events1) <= 2 && spec_waiting(stage.events2) <= 2
}

/// A checkpoint run by both sides leaves no more abilities of the round
/// waiting on either side than waited before it.
pub proof fn lemma_both_waiting(stage: Stage, time: EventTime, catalog: Catalog)
    requires
        stage.wf(catalog),
    ensures
        spec_waiting(stage.spec_both(time, catalog).events1) <= spec_waiting(stage.events1),
        spec_waiting(stage.spec_both(time, catalog).events2) <= spec_waiting(stage.events2),
{
    reveal(Stage::spec_both);
    lemma_execute_waiting(stage.events1, time, stage.data, catalog);
    lemma_execute_keeps(stage.events1, time, stage.data, catalog);
    let mid = stage.events1.spec_execute(time, stage.data, catalog).1;
    lemma_execute_waiting(stage.events2, time, mid.mirrored(), catalog);
}

/// Looking again at the cancels leaves the queues as they are.
pub proof fn lemma_settle_keeps_queues(stage: Stage, times: nat)
    ensures
        stage.spec_settle(times).events1 == stage.events1,
        stage.spec_settle(times).events2 == stage.events2,
    decreases times,
{
    if times > 0 {
        lemma_settle_keeps_queues(stage.spec_check().1, (times - 1) as nat);
    }
}

/// No more abilities of the round wait on a side of `b` than of `a`.
pub open spec fn spec_no_more_wait(a: Stage, b: Stage) -> bool {
    spec_waiting(b.events1) <= spec_waiting(a.events1) && spec_waiting(b.events2) <= spec_waiting(
        a.events2,
    )
}

/// The checkpoints before the fight leave no more abilities of the round
/// waiting than waited before them.
pub proof fn lemma_before_waiting(stage: Stage, catalog: Catalog)
    requires
        stage.wf(catalog),
    ensures
        spec_no_more_wait(stage, stage.spec_before(catalog)),
{
    let a = stage.spec_both(EventTime::START, catalog);
    let b = a.spec_both(EventTime::PRE4, catalog);
    let c = b.spec_settle(3);
    let d = c.spec_both(EventTime::PRE3, catalog);
    let e = d.spec_both(EventTime::PRE2, catalog);
    let f = e.spec_both(EventTime::PRE1, catalog);
    assert(a.wf(catalog) && spec_no_more_wait(stage, a)) by {
        lemma_both_keeps(stage, EventTime::START, catalog);
        lemma_both_waiting(stage, EventTime::START, catalog);
    }
    assert(b.wf(catalog) && spec_no_more_wait(a, b)) by {
        lemma_both_keeps(a, EventTime::PRE4, catalog);
        lemma_both_waiting(a, EventTime::PRE4, catalog);
    }
    assert(c.wf(catalog) && spec_no_more_wait(b, c)) by {
        lemma_settle_keeps(b, 3, catalog);
        lemma_settle_keeps_queues(b, 3);
    }
    assert(d.wf(catalog) && spec_no_more_wait(c, d)) by {
        lemma_both_keeps(c, EventTime::PRE3, catalog);
        lemma_both_waiting(c, EventTime::PRE3, catalog);
    }
    assert(e.wf(catalog) && spec_no_more_wait(d, e)) by {
        lemma_both_keeps(d, EventTime::PRE2, catalog);
        lemma_both_waiting(d, EventTime::PRE2, catalog);
    }
    assert(spec_no_more_wait(e, f)) by {
        lemma_both_waiting(e, EventTime::PRE1, catalog);
    }
}

/// The checkpoints after the attacks leave no more abilities of the round
/// waiting than waited before them.
pub proof fn lemma_after_waiting(stage: Stage, catalog: Catalog)
    requires
        stage.wf(catalog),
    ensures
        spec_no_more_wait(stage, stage.spec_after(catalog)),
{
    let a = stage.spec_both(EventTime::POST1, catalog);
    let b = a.spec_both(EventTime::POST2, catalog);
    let c = b.spec_both(EventTime::POST3, catalog);
    let d = c.spec_both(EventTime::POST4, catalog);
    assert(a.wf(catalog) && spec_no_more_wait(stage, a)) by {
        lemma_both_keeps(stage, EventTime::POST1, catalog);
        lemma_both_waiting(stage, EventTime::POST1, catalog);
    }
    assert(b.wf(catalog) && spec_no_more_wait(a, b)) by {
        lemma_both_keeps(a, EventTime::POST2, catalog);
        lemma_both_waiting(a, EventTime::POST2, catalog);
    }
    assert(c.wf(catalog) && spec_no_more_wait(b, c)) by {
        lemma_both_keeps(b, EventTime::POST3, catalog);
        lemma_both_waiting(b, EventTime::POST3, catalog);
    }
    assert(spec_no_more_wait(c, d)) by {
        lemma_both_waiting(c, EventTime::POST4, catalog);
    }
}

/// When a round starts, at most two abilities of the round wait on each side:
/// the ability and the bonus of the card in play.
pub proof fn lemma_open_calm(game: GameView, catalog: Catalog)
    requires
        game.wf(catalog),
        game.s1.is_some(),
        game.s2.is_some(),
    ensures
        spec_calm(game.spec_open(catalog)),
{
    let s1 = game.s1.unwrap();
    let s2 = game.s2.unwrap();
    let ability1 = catalog.ability(game.h1.cards[s1.index as int].ability_id)@;
    let bonus1 = catalog.ability(game.h1.cards[s1.index as int].bonus_id)@;
    let ability2 = catalog.ability(game.h2.cards[s2.index as int].ability_id)@;
    let bonus2 = catalog.ability(game.h2.cards[s2.index as int].bonus_id)@;
    assert(spec_waiting(game.events1.spec_add(ability1).spec_add(bonus1)) <= 2) by {
        lemma_waiting_idle(game.events1, 10);
        assert(spec_waiting(game.events1) == 0);
        crate::battle::lemma_add_keeps_wf(game.events1, ability1);
        lemma_add_waiting(game.events1, ability1);
        lemma_add_waiting(game.events1.spec_add(ability1), bonus1);
    }
    assert(spec_waiting(game.events2.spec_add(ability2).spec_add(bonus2)) <= 2) by {
        lemma_waiting_idle(game.events2, 10);
        assert(spec_waiting(game.events2) == 0);
        crate::battle::lemma_add_keeps_wf(game.events2, ability2);
        lemma_add_waiting(game.events2, ability2);
        lemma_add_waiting(game.events2.spec_add(ability2), bonus2);
    }
}

/// The queues never hold more than two abilities of the round on a side: not
/// when the round starts, with the ability and the bonus of the card in play,
/// and not after the checkpoints before the fight, after those that follow
/// the attacks or after the one at the end, whatever came into play at them.
pub proof fn lemma_at_most_two_wait(game: GameView, catalog: Catalog)
    requires
        game.wf(catalog),
        game.s1.is_some(),
        game.s2.is_some(),
    ensures
        spec_calm(game.spec_open(catalog)),
        spec_calm(game.spec_open(catalog).spec_before(catalog)),
        ({
            let s1 = game.s1.unwrap();
            let s2 = game.s2.unwrap();
            let fought = game.spec_open(catalog).spec_fought(
                s1.fury,
                s1.pillz,
                s2.fury,
                s2.pillz,
                catalog,
            );
            spec_calm(fought) && spec_calm(fought.spec_both(EventTime::END, catalog))
        }),
{
    let s1 = game.s1.unwrap();
    let s2 = game.s2.unwrap();
    let open = game.spec_open(catalog);
    let before = open.spec_before(catalog);
    let armed = before.spec_fury(s1.fury, s2.fury).spec_attacks(s1.pillz, s2.pillz);
    let met = armed.spec_after(catalog);
    let fought = met.spec_fight().spec_pay();
    let ended = fought.spec_both(EventTime::END, catalog);
    assert(open.wf(catalog)) by {
        lemma_battle_keeps_wf(game, catalog);
    }
    assert(spec_calm(open)) by {
        lemma_open_calm(game, catalog);
    }
    assert(before.wf(catalog) && spec_no_more_wait(open, before)) by {
        lemma_before_keeps(open, catalog);
        lemma_before_waiting(open, catalog);
    }
    assert(armed.wf(catalog) && spec_no_more_wait(before, armed)) by {
        lemma_arming_keeps(before, s1.fury, s1.pillz, s2.fury, s2.pillz, catalog);
        lemma_arming_keeps(
            before.spec_fury(s1.fury, s2.fury),
            s1.fury,
            s1.pillz,
            s2.fury,
            s2.pillz,
            catalog,
        );
    }
    assert(met.wf(catalog) && spec_no_more_wait(armed, met)) by {
        lemma_after_keeps(armed, catalog);
        lemma_after_waiting(armed, catalog);
    }
    assert(fought.wf(catalog) && spec_no_more_wait(met, fought)) by {
        lemma_fight_keeps(met, catalog);
        lemma_fight_keeps(met.spec_fight(), catalog);
    }
    assert(spec_no_more_wait(fought, ended)) by {
        lemma_both_waiting(fought, EventTime::END, catalog);
    }
    assert(fought == open.spec_fought(s1.fury, s1.pillz, s2.fury, s2.pillz, catalog));
}

} // verus!
