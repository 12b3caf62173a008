use vstd::prelude::*;
use crate::catalog::Catalog;
use crate::game::{Game, GameStatus, GameView, PlayerType, Selection};
use crate::solver::{
    lemma_ranges_affordable, shift_false_range, spec_affordable, spec_awaits_reply,
    spec_committed, spec_shift_false_range, spec_solve_first, spec_split_range, split_range,
    SelectionResult, Solver,
};

verus! {

/// How often the player wins, how often the match is drawn and how often the
/// opponent wins.
#[derive(Debug, Clone, Copy, PartialEq, Eq, Structural)]
pub struct Tally {
    pub player: u32,
    pub draws: u32,
    pub opponent: u32,
}

/// The best move that a statistical search has seen: the selection, the
/// tenths of the answers to it that its side does not lose to, and how often
/// its side wins, draws and loses against them.
#[derive(Debug, Clone, Copy, PartialEq, Eq, Structural)]
pub struct Estimate {
    pub selection: Selection,
    pub rate: u32,
    pub wins: u32,
    pub draws: u32,
    pub losses: u32,
}

/// Who wins a match once it is played to its end by the exact search: what
/// the match is decided as, or what the search finds for the side that moves.
pub open spec fn spec_outcome(after: GameView, catalog: Catalog) -> GameStatus {
    if after.spec_status() != GameStatus::Playing {
        after.spec_status()
    } else {
        match spec_solve_first(after, catalog) {
            SelectionResult::Player(_) => GameStatus::Player,
            SelectionResult::Draw(_) => GameStatus::Draw,
            SelectionResult::Opponent(_) => GameStatus::Opponent,
        }
    }
}

/// Who wins after the side that moves selects `first` and the other side
/// answers with `second`.
#[verifier::opaque]
pub open spec fn spec_pair_outcome(
    base: GameView,
    catalog: Catalog,
    first: Selection,
    second: Selection,
) -> GameStatus {
    spec_outcome(base.spec_select(first, catalog).spec_select(second, catalog), catalog)
}

/// A tally as three numbers.
pub struct Counts {
    pub player: int,
    pub draws: int,
    pub opponent: int,
}

/// A tally with one more match counted.
pub open spec fn spec_counted(counts: Counts, outcome: GameStatus) -> Counts {
    match outcome {
        GameStatus::Player => Counts { player: counts.player + 1, ..counts },
        GameStatus::Draw => Counts { draws: counts.draws + 1, ..counts },
        GameStatus::Opponent => Counts { opponent: counts.opponent + 1, ..counts },
        GameStatus::Playing => counts,
    }
}

/// The two selections of a round in the order in which they are made, where
/// one of them is `fixed` and the other is the card `card` with the wager
/// `wager`.
pub open spec fn spec_ordered(fixed: Selection, fixed_first: bool, card: usize, wager: (u8, bool)) -> (
    Selection,
    Selection,
) {
    let other = Selection { index: card, pillz: wager.0, fury: wager.1 };
    if fixed_first {
        (fixed, other)
    } else {
        (other, fixed)
    }
}

/// The tally over the first `n` wagers of `moves` on the card `card`, each
/// played against `fixed`; with `skip_zero`, wagers of no pillz are passed
/// over.
pub open spec fn spec_tally_moves(
    base: GameView,
    catalog: Catalog,
    fixed: Selection,
    fixed_first: bool,
    card: usize,
    moves: Seq<(u8, bool)>,
    n: int,
    skip_zero: bool,
    counts: Counts,
) -> Counts
    decreases n,
{
    if n <= 0 {
        counts
    } else {
        let before = spec_tally_moves(
            base,
            catalog,
            fixed,
            fixed_first,
            card,
            moves,
            n - 1,
            skip_zero,
            counts,
        );
        if skip_zero && moves[n - 1].0 == 0 {
            before
        } else {
            let (first, second) = spec_ordered(fixed, fixed_first, card, moves[n - 1]);
            spec_counted(before, spec_pair_outcome(base, catalog, first, second))
        }
    }
}

/// The tally over the answers of the other side to `candidate`: over its
/// first `n` cards, those it has not played, each with every wager of
/// `spec_split_range` for its pool.
pub open spec fn spec_tally_answers(
    base: GameView,
    catalog: Catalog,
    candidate: Selection,
    n: int,
    skip_zero: bool,
) -> Counts
    decreases n,
{
    if n <= 0 {
        Counts { player: 0, draws: 0, opponent: 0 }
    } else {
        let before = spec_tally_answers(base, catalog, candidate, n - 1, skip_zero);
        if base.spec_turn_opponent_hand().cards[n - 1].played {
            before
        } else {
            let moves = spec_split_range(base.spec_turn_opponent().pillz);
            spec_tally_moves(
                base,
                catalog,
                candidate,
                true,
                (n - 1) as usize,
                moves,
                moves.len() as int,
                skip_zero,
                before,
            )
        }
    }
}

/// The tenths of the matches counted that the side `turn` does not lose;
/// none where no match was counted.
pub open spec fn spec_rate(counts: Counts, turn: PlayerType) -> int {
    let total = counts.player + counts.draws + counts.opponent;
    let kept = counts.draws + if turn == PlayerType::Player {
        counts.player
    } else {
        counts.opponent
    };
    if total <= 0 {
        0
    } else {
        (10 * kept) / total
    }
}

/// A tally as the side `turn` sees it, for the move `selection`.
pub open spec fn spec_estimate(selection: Selection, counts: Counts, turn: PlayerType) -> Estimate {
    Estimate {
        selection,
        rate: spec_rate(counts, turn) as u32,
        wins: (if turn == PlayerType::Player {
            counts.player
        } else {
            counts.opponent
        }) as u32,
        draws: counts.draws as u32,
        losses: (if turn == PlayerType::Player {
            counts.opponent
        } else {
            counts.player
        }) as u32,
    }
}

/// The better of the best move seen, if any, and a new one: the new one
/// where it is the first, where its rate is higher, or where its rate is the
/// same and it costs fewer pillz than the best.
pub open spec fn spec_ranked(best: Option<Estimate>, new: Estimate) -> Estimate {
    match best {
        None => new,
        Some(seen) => if new.rate > seen.rate || (new.rate == seen.rate && new.selection.pillz
            < seen.selection.pillz) {
            new
        } else {
            seen
        },
    }
}

/// The best move that a search has seen or, where it has seen none, the
/// selection of nothing.
pub open spec fn spec_found(best: Option<Estimate>) -> Estimate {
    match best {
        Some(seen) => seen,
        None => spec_no_estimate(),
    }
}

/// What a search answers where the side has no move to rank: the selection
/// of nothing, never seen to hold.
pub open spec fn spec_no_estimate() -> Estimate {
    Estimate {
        selection: Selection { index: 0, pillz: 0, fury: false },
        rate: 0,
        wins: 0,
        draws: 0,
        losses: 0,
    }
}

/// The best of the first `n` moves of `moves` for the card `index` of the
/// side that opens the round, starting from `best`.
pub open spec fn spec_rank_opening(
    game: GameView,
    catalog: Catalog,
    index: usize,
    moves: Seq<(u8, bool)>,
    n: int,
    skip_zero: bool,
    best: Option<Estimate>,
) -> Option<Estimate>
    decreases n,
{
    if n <= 0 {
        best
    } else {
        let before = spec_rank_opening(game, catalog, index, moves, n - 1, skip_zero, best);
        let candidate = Selection { index, pillz: moves[n - 1].0, fury: moves[n - 1].1 };
        Some(
            spec_ranked(
                before,
                spec_estimate(
                    candidate,
                    spec_tally_answers(game, catalog, candidate, 4, skip_zero),
                    game.spec_turn(),
                ),
            ),
        )
    }
}

/// The best move for the side that opens the round over its first `n` cards,
/// those it has not played.
pub open spec fn spec_middle_first_cards(game: GameView, catalog: Catalog, n: int) -> Option<
    Estimate,
>
    decreases n,
{
    if n <= 0 {
        None
    } else {
        let before = spec_middle_first_cards(game, catalog, n - 1);
        if game.spec_turn_hand().cards[n - 1].played {
            before
        } else {
            let moves = spec_shift_false_range(game.spec_turn_player().pillz, game.round);
            spec_rank_opening(game, catalog, (n - 1) as usize, moves, moves.len() as int, false, before)
        }
    }
}

/// What the statistical search finds for the side that opens a round.
///
/// Each move of `spec_shift_false_range` on each unplayed card is played
/// against every answer of the other side, and each of these matches is
/// played to its end by the exact search. The answer is the move with the
/// highest rate of matches not lost, in tenths; among moves with the same
/// rate, the one with the fewest pillz; among those, the first. Where the
/// side has no unplayed card, the answer is the selection of nothing.
pub open spec fn spec_middle_first(game: GameView, catalog: Catalog) -> Estimate {
    spec_found(spec_middle_first_cards(game, catalog, 4))
}

/// The best move for one card of the side that opens the round, against the
/// answers that wager at least one pillz.
pub open spec fn spec_middle_first_card(game: GameView, catalog: Catalog, index: usize) -> Estimate {
    let moves = spec_shift_false_range(game.spec_turn_player().pillz, game.round);
    spec_found(spec_rank_opening(game, catalog, index, moves, moves.len() as int, true, None))
}

/// The best of the first `n` moves of `moves` for the card `index` of the
/// side that replies, starting from `best`.
pub open spec fn spec_rank_reply(
    base: GameView,
    catalog: Catalog,
    turn: PlayerType,
    committed: usize,
    wagers: Seq<(u8, bool)>,
    index: usize,
    moves: Seq<(u8, bool)>,
    n: int,
    skip_zero: bool,
    best: Option<Estimate>,
) -> Option<Estimate>
    decreases n,
{
    if n <= 0 {
        best
    } else {
        let before = spec_rank_reply(
            base,
            catalog,
            turn,
            committed,
            wagers,
            index,
            moves,
            n - 1,
            skip_zero,
            best,
        );
        let candidate = Selection { index, pillz: moves[n - 1].0, fury: moves[n - 1].1 };
        Some(
            spec_ranked(
                before,
                spec_estimate(
                    candidate,
                    spec_tally_moves(
                        base,
                        catalog,
                        candidate,
                        false,
                        committed,
                        wagers,
                        wagers.len() as int,
                        skip_zero,
                        Counts { player: 0, draws: 0, opponent: 0 },
                    ),
                    turn,
                ),
            ),
        )
    }
}

/// The best move for the side that replies over its first `n` cards, those
/// it has not played.
pub open spec fn spec_middle_second_cards(
    base: GameView,
    catalog: Catalog,
    turn: PlayerType,
    committed: usize,
    n: int,
) -> Option<Estimate>
    decreases n,
{
    if n <= 0 {
        None
    } else {
        let before = spec_middle_second_cards(base, catalog, turn, committed, n - 1);
        if base.spec_turn_opponent_hand().cards[n - 1].played {
            before
        } else {
            let moves = spec_shift_false_range(base.spec_turn_opponent().pillz, base.round);
            let wagers = spec_split_range(base.spec_turn_player().pillz);
            spec_rank_reply(
                base,
                catalog,
                turn,
                committed,
                wagers,
                (n - 1) as usize,
                moves,
                moves.len() as int,
                false,
                before,
            )
        }
    }
}

/// What the statistical search finds for the side that replies to a
/// selection of which it knows the card and not the wager.
///
/// Each move of `spec_shift_false_range` on each unplayed card is played
/// against every wager of `spec_split_range` on the selected card, and each
/// of these matches is played to its end by the exact search. The answer is
/// the move with the highest rate of matches not lost, in tenths; among moves
/// with the same rate, the one with the fewest pillz; among those, the first.
/// Where the side has no unplayed card, the answer is the selection of
/// nothing.
pub open spec fn spec_middle_second(game: GameView, catalog: Catalog) -> Estimate {
    spec_found(
        spec_middle_second_cards(
            GameView { s1: None, s2: None, ..game },
            catalog,
            game.spec_turn(),
            spec_committed(game),
            4,
        ),
    )
}

/// The best move for one card of the side that replies, against the wagers
/// of at least one pillz.
pub open spec fn spec_middle_second_card(game: GameView, catalog: Catalog, index: usize) -> Estimate {
    let base = GameView { s1: None, s2: None, ..game };
    let moves = spec_shift_false_range(base.spec_turn_opponent().pillz, base.round);
    let wagers = spec_split_range(base.spec_turn_player().pillz);
    spec_found(
        spec_rank_reply(
            base,
            catalog,
            game.spec_turn(),
            spec_committed(game),
            wagers,
            index,
            moves,
            moves.len() as int,
            true,
            None,
        ),
    )
}

/// The number by which the best moves of the four cards are compared: a
/// hundred for each tenth of the rate, and one for each pillz short of 24.
pub open spec fn spec_key(estimate: Estimate) -> int {
    estimate.rate * 100 + 24 - estimate.selection.pillz
}

/// The estimate with the highest key among the first `n`; the last of them
/// where several have it.
pub open spec fn spec_best_estimate(estimates: Seq<Estimate>, n: int) -> Estimate
    decreases n,
{
    if n <= 1 {
        estimates[0]
    } else {
        let before = spec_best_estimate(estimates, n - 1);
        if spec_key(before) > spec_key(estimates[n - 1]) {
            before
        } else {
            estimates[n - 1]
        }
    }
}

/// The matches counted.
pub open spec fn spec_total(counts: Counts) -> int {
    counts.player + counts.draws + counts.opponent
}

/// Counting matches adds at most one for each wager to a tally and takes
/// nothing from it.
pub proof fn lemma_tally_moves_bound(
    base: GameView,
    catalog: Catalog,
    fixed: Selection,
    fixed_first: bool,
    card: usize,
    moves: Seq<(u8, bool)>,
    n: int,
    skip_zero: bool,
    counts: Counts,
)
    requires
        0 <= n,
    ensures
        ({
            let after = spec_tally_moves(
                base,
                catalog,
                fixed,
                fixed_first,
                card,
                moves,
                n,
                skip_zero,
                counts,
            );
            &&& counts.player <= after.player
            &&& counts.draws <= after.draws
            &&& counts.opponent <= after.opponent
            &&& spec_total(after) <= spec_total(counts) + n
        }),
    decreases n,
{
    if n > 0 {
        lemma_tally_moves_bound(
            base,
            catalog,
            fixed,
            fixed_first,
            card,
            moves,
            n - 1,
            skip_zero,
            counts,
        );
    }
}

/// The three numbers of a tally.
pub open spec fn spec_counts(tally: Tally) -> Counts {
    Counts {
        player: tally.player as int,
        draws: tally.draws as int,
        opponent: tally.opponent as int,
    }
}

/// Counting the answers to a move adds at most 509 matches for each card.
pub proof fn lemma_tally_answers_bound(
    base: GameView,
    catalog: Catalog,
    candidate: Selection,
    n: int,
    skip_zero: bool,
)
    requires
        0 <= n,
    ensures
        ({
            let after = spec_tally_answers(base, catalog, candidate, n, skip_zero);
            &&& 0 <= after.player
            &&& 0 <= after.draws
            &&& 0 <= after.opponent
            &&& spec_total(after) <= 509 * n
        }),
    decreases n,
{
    if n > 0 {
        lemma_tally_answers_bound(base, catalog, candidate, n - 1, skip_zero);
        let before = spec_tally_answers(base, catalog, candidate, n - 1, skip_zero);
        let moves = spec_split_range(base.spec_turn_opponent().pillz);
        lemma_tally_moves_bound(
            base,
            catalog,
            candidate,
            true,
            (n - 1) as usize,
            moves,
            moves.len() as int,
            skip_zero,
            before,
        );
    }
}

fn counted(tally: Tally, outcome: GameStatus) -> (after: Tally)
    requires
        spec_total(spec_counts(tally)) < u32::MAX,
    ensures
        spec_counts(after) == spec_counted(spec_counts(tally), outcome),
{
    match outcome {
        GameStatus::Player => Tally { player: tally.player + 1, ..tally },
        GameStatus::Draw => Tally { draws: tally.draws + 1, ..tally },
        GameStatus::Opponent => Tally { opponent: tally.opponent + 1, ..tally },
        GameStatus::Playing => tally,
    }
}

fn estimate(selection: Selection, tally: Tally, turn: PlayerType) -> (result: Estimate)
    requires
        spec_total(spec_counts(tally)) <= u32::MAX,
    ensures
        result == spec_estimate(selection, spec_counts(tally), turn),
{
    let total: u64 = tally.player as u64 + tally.draws as u64 + tally.opponent as u64;
    let (wins, losses) = if turn == PlayerType::Player {
        (tally.player, tally.opponent)
    } else {
        (tally.opponent, tally.player)
    };
    let kept: u64 = tally.draws as u64 + wins as u64;
    let rate: u64 = if total == 0 {
        0
    } else {
        (10 * kept) / total
    };
    assert(rate <= 10) by (nonlinear_arith)
        requires
            kept <= total,
            rate == if total == 0 {
                0int
            } else {
                (10 * kept) / (total as int)
            },
    ;
    Estimate { selection, rate: rate as u32, wins, draws: tally.draws, losses }
}

fn ranked(best: Option<Estimate>, new: Estimate) -> (result: Estimate)
    ensures
        result == spec_ranked(best, new),
{
    match best {
        None => new,
        Some(seen) => if new.rate > seen.rate || (new.rate == seen.rate && new.selection.pillz
            < seen.selection.pillz) {
            new
        } else {
            seen
        },
    }
}

fn found(best: Option<Estimate>) -> (result: Estimate)
    ensures
        result == spec_found(best),
{
    match best {
        Some(seen) => seen,
        None => no_estimate(),
    }
}

fn no_estimate() -> (result: Estimate)
    ensures
        result == spec_no_estimate(),
{
    Estimate {
        selection: Selection { index: 0, pillz: 0, fury: false },
        rate: 0,
        wins: 0,
        draws: 0,
        losses: 0,
    }
}

fn outcome(after: &Game, catalog: &Catalog) -> (status: GameStatus)
    requires
        after@.wf(*catalog),
    ensures
        status == spec_outcome(after@, *catalog),
{
    let status = after.status();
    if status != GameStatus::Playing {
        status
    } else {
        match Solver::solve_first(after, catalog) {
            SelectionResult::Player(_) => GameStatus::Player,
            SelectionResult::Draw(_) => GameStatus::Draw,
            SelectionResult::Opponent(_) => GameStatus::Opponent,
        }
    }
}

/// Whether `fixed` and every wager of `moves` on the card `card` may be
/// selected one after the other in a match in which nothing is selected.
pub open spec fn spec_playable(
    base: GameView,
    fixed: Selection,
    fixed_first: bool,
    card: usize,
    moves: Seq<(u8, bool)>,
) -> bool {
    &&& base.s1.is_none()
    &&& base.s2.is_none()
    &&& card < 4
    &&& if fixed_first {
        &&& base.spec_can_select(fixed.index, fixed.pillz, fixed.fury)
        &&& !base.spec_turn_opponent_hand().cards[card as int].played
        &&& spec_affordable(moves, base.spec_turn_opponent().pillz)
    } else {
        &&& GameView::spec_legal(fixed, base.spec_turn_opponent(), base.spec_turn_opponent_hand())
        &&& !base.spec_turn_hand().cards[card as int].played
        &&& spec_affordable(moves, base.spec_turn_player().pillz)
    }
}

impl Solver {
    /// Who wins after the side that moves selects `first` and the other side
    /// answers with `second`.
    fn pair_outcome(base: &Game, catalog: &Catalog, first: Selection, second: Selection) -> (status:
        GameStatus)
        requires
            base@.wf(*catalog),
            base.s1.is_none(),
            base.s2.is_none(),
            base@.spec_can_select(first.index, first.pillz, first.fury),
            GameView::spec_legal(second, base@.spec_turn_opponent(), base@.spec_turn_opponent_hand()),
        ensures
            status == spec_pair_outcome(base@, *catalog, first, second),
    {
        proof {
            reveal(spec_pair_outcome);
        }
        let mut after = base.clone();
        after.select(first.index, first.pillz, first.fury, catalog);
        after.select(second.index, second.pillz, second.fury, catalog);
        outcome(&after, catalog)
    }

    /// The tally over the wagers of `moves` on the card `card`, each played
    /// against `fixed`.
    fn tally_moves(
        base: &Game,
        catalog: &Catalog,
        fixed: Selection,
        fixed_first: bool,
        card: usize,
        moves: &Vec<(u8, bool)>,
        skip_zero: bool,
        tally: Tally,
    ) -> (after: Tally)
        requires
            base@.wf(*catalog),
            spec_playable(base@, fixed, fixed_first, card, moves@),
            spec_total(spec_counts(tally)) + moves.len() <= u32::MAX,
        ensures
            spec_counts(after) == spec_tally_moves(
                base@,
                *catalog,
                fixed,
                fixed_first,
                card,
                moves@,
                moves.len() as int,
                skip_zero,
                spec_counts(tally),
            ),
    {
        let mut counts = tally;
        let mut k: usize = 0;
        while k < moves.len()
            invariant
                k <= moves.len(),
                base@.wf(*catalog),
                spec_playable(base@, fixed, fixed_first, card, moves@),
                spec_total(spec_counts(tally)) + moves.len() <= u32::MAX,
                spec_counts(counts) == spec_tally_moves(
                    base@,
                    *catalog,
                    fixed,
                    fixed_first,
                    card,
                    moves@,
                    k as int,
                    skip_zero,
                    spec_counts(tally),
                ),
            decreases moves.len() - k,
        {
            proof {
                lemma_tally_moves_bound(
                    base@,
                    *catalog,
                    fixed,
                    fixed_first,
                    card,
                    moves@,
                    k as int,
                    skip_zero,
                    spec_counts(tally),
                );
            }
            let (pillz, fury) = moves[k];
            if !(skip_zero && pillz == 0) {
                let other = Selection { index: card, pillz, fury };
                let status = if fixed_first {
                    Solver::pair_outcome(base, catalog, fixed, other)
                } else {
                    Solver::pair_outcome(base, catalog, other, fixed)
                };
                counts = counted(counts, status);
            }
            k += 1;
        }
        counts
    }

    /// The tally over the answers of the other side to `candidate`.
    fn tally_answers(base: &Game, catalog: &Catalog, candidate: Selection, skip_zero: bool) -> (after:
        Tally)
        requires
            base@.wf(*catalog),
            base.s1.is_none(),
            base.s2.is_none(),
            base@.spec_can_select(candidate.index, candidate.pillz, candidate.fury),
        ensures
            spec_counts(after) == spec_tally_answers(base@, *catalog, candidate, 4, skip_zero),
            spec_total(spec_counts(after)) <= 2036,
    {
        let moves = split_range(base.get_turn_opponent().pillz);
        let mut counts = Tally { player: 0, draws: 0, opponent: 0 };
        let mut card: usize = 0;
        while card < 4
            invariant
                card <= 4,
                base@.wf(*catalog),
                base.s1.is_none(),
                base.s2.is_none(),
                base@.spec_can_select(candidate.index, candidate.pillz, candidate.fury),
                moves@ == spec_split_range(base@.spec_turn_opponent().pillz),
                spec_affordable(moves@, base@.spec_turn_opponent().pillz),
                spec_counts(counts) == spec_tally_answers(
                    base@,
                    *catalog,
                    candidate,
                    card as int,
                    skip_zero,
                ),
            decreases 4 - card,
        {
            proof {
                lemma_tally_answers_bound(base@, *catalog, candidate, card as int, skip_zero);
            }
            if !base.get_turn_opponent_hand().cards[card].played {
                counts = Solver::tally_moves(
                    base,
                    catalog,
                    candidate,
                    true,
                    card,
                    &moves,
                    skip_zero,
                    counts,
                );
            }
            card += 1;
        }
        proof {
            lemma_tally_answers_bound(base@, *catalog, candidate, 4, skip_zero);
        }
        counts
    }

    /// The best of the moves of `moves` for the card `index` of the side that
    /// opens the round, starting from `best`.
    fn rank_opening(
        game: &Game,
        catalog: &Catalog,
        index: usize,
        moves: &Vec<(u8, bool)>,
        skip_zero: bool,
        best: Option<Estimate>,
    ) -> (result: Option<Estimate>)
        requires
            game@.wf(*catalog),
            game.s1.is_none(),
            game.s2.is_none(),
            index < 4,
            !game@.spec_turn_hand().cards[index as int].played,
            spec_affordable(moves@, game@.spec_turn_player().pillz),
        ensures
            result == spec_rank_opening(
                game@,
                *catalog,
                index,
                moves@,
                moves.len() as int,
                skip_zero,
                best,
            ),
    {
        let turn = game.get_turn();
        let mut top = best;
        let mut k: usize = 0;
        while k < moves.len()
            invariant
                k <= moves.len(),
                game@.wf(*catalog),
                game.s1.is_none(),
                game.s2.is_none(),
                index < 4,
                !game@.spec_turn_hand().cards[index as int].played,
                spec_affordable(moves@, game@.spec_turn_player().pillz),
                turn == game@.spec_turn(),
                top == spec_rank_opening(game@, *catalog, index, moves@, k as int, skip_zero, best),
            decreases moves.len() - k,
        {
            let (pillz, fury) = moves[k];
            let candidate = Selection { index, pillz, fury };
            let tally = Solver::tally_answers(game, catalog, candidate, skip_zero);
            top = Some(ranked(top, estimate(candidate, tally, turn)));
            k += 1;
        }
        top
    }

    /// The statistical search for the side that opens a round: the move that
    /// holds against the largest share of the answers to it.
    pub fn middle_first(game: &Game, catalog: &Catalog) -> (best: Estimate)
        requires
            game@.wf(*catalog),
            game.s1.is_none(),
            game.s2.is_none(),
        ensures
            best == spec_middle_first(game@, *catalog),
            game.round < 4 ==> spec_names_move(game@, best),
    {
        proof {
            if game.round < 4 {
                lemma_middle_is_legal(game@, *catalog);
            }
        }
        let moves = shift_false_range(game.get_turn_player().pillz, game.round);
        let mut best: Option<Estimate> = None;
        let mut index: usize = 0;
        while index < 4
            invariant
                index <= 4,
                game@.wf(*catalog),
                game.s1.is_none(),
                game.s2.is_none(),
                moves@ == spec_shift_false_range(game@.spec_turn_player().pillz, game.round),
                spec_affordable(moves@, game@.spec_turn_player().pillz),
                best == spec_middle_first_cards(game@, *catalog, index as int),
            decreases 4 - index,
        {
            if !game.get_turn_hand().cards[index].played {
                best = Solver::rank_opening(game, catalog, index, &moves, false, best);
            }
            index += 1;
        }
        found(best)
    }

    /// The statistical search for one card of the side that opens a round,
    /// against the answers that wager at least one pillz.
    pub fn middle_first_card(game: &Game, catalog: &Catalog, index: usize) -> (best: Estimate)
        requires
            game@.wf(*catalog),
            game.s1.is_none(),
            game.s2.is_none(),
            index < 4,
            !game@.spec_turn_hand().cards[index as int].played,
        ensures
            best == spec_middle_first_card(game@, *catalog, index),
            best.selection.index == index,
            spec_names_move(game@, best),
    {
        proof {
            lemma_first_card_is_legal(game@, *catalog, index);
        }
        let moves = shift_false_range(game.get_turn_player().pillz, game.round);
        found(Solver::rank_opening(game, catalog, index, &moves, true, None))
    }

    /// The best of the moves of `moves` for the card `index` of the side that
    /// replies, starting from `best`.
    fn rank_reply(
        base: &Game,
        catalog: &Catalog,
        turn: PlayerType,
        committed: usize,
        wagers: &Vec<(u8, bool)>,
        index: usize,
        moves: &Vec<(u8, bool)>,
        skip_zero: bool,
        best: Option<Estimate>,
    ) -> (result: Option<Estimate>)
        requires
            base@.wf(*catalog),
            base.s1.is_none(),
            base.s2.is_none(),
            committed < 4,
            !base@.spec_turn_hand().cards[committed as int].played,
            spec_affordable(wagers@, base@.spec_turn_player().pillz),
            wagers.len() <= 509,
            index < 4,
            !base@.spec_turn_opponent_hand().cards[index as int].played,
            spec_affordable(moves@, base@.spec_turn_opponent().pillz),
        ensures
            result == spec_rank_reply(
                base@,
                *catalog,
                turn,
                committed,
                wagers@,
                index,
                moves@,
                moves.len() as int,
                skip_zero,
                best,
            ),
    {
        let mut top = best;
        let mut k: usize = 0;
        while k < moves.len()
            invariant
                k <= moves.len(),
                base@.wf(*catalog),
                base.s1.is_none(),
                base.s2.is_none(),
                committed < 4,
                !base@.spec_turn_hand().cards[committed as int].played,
                spec_affordable(wagers@, base@.spec_turn_player().pillz),
                wagers.len() <= 509,
                index < 4,
                !base@.spec_turn_opponent_hand().cards[index as int].played,
                spec_affordable(moves@, base@.spec_turn_opponent().pillz),
                top == spec_rank_reply(
                    base@,
                    *catalog,
                    turn,
                    committed,
                    wagers@,
                    index,
                    moves@,
                    k as int,
                    skip_zero,
                    best,
                ),
            decreases moves.len() - k,
        {
            let (pillz, fury) = moves[k];
            let candidate = Selection { index, pillz, fury };
            let none = Tally { player: 0, draws: 0, opponent: 0 };
            proof {
                lemma_tally_moves_bound(
                    base@,
                    *catalog,
                    candidate,
                    false,
                    committed,
                    wagers@,
                    wagers.len() as int,
                    skip_zero,
                    spec_counts(none),
                );
            }
            let tally = Solver::tally_moves(
                base,
                catalog,
                candidate,
                false,
                committed,
                wagers,
                skip_zero,
                none,
            );
            top = Some(ranked(top, estimate(candidate, tally, turn)));
            k += 1;
        }
        top
    }

    /// The statistical search for the side that replies to a selection of
    /// which it knows the card and not the wager.
    pub fn middle_second(game: &Game, catalog: &Catalog) -> (best: Estimate)
        requires
            game@.wf(*catalog),
            spec_awaits_reply(game@),
        ensures
            best == spec_middle_second(game@, *catalog),
            game.round < 4 ==> spec_names_move(game@, best),
    {
        proof {
            if game.round < 4 {
                lemma_middle_is_legal(game@, *catalog);
            }
        }
        let turn = game.get_turn();
        let committed = match game.s1 {
            None => game.s2.unwrap().index,
            Some(s) => s.index,
        };
        let mut base = game.clone();
        base.clear_selection();
        assert(base@ == (GameView { s1: None, s2: None, ..game@ }));
        let wagers = split_range(base.get_turn_player().pillz);
        let moves = shift_false_range(base.get_turn_opponent().pillz, base.round);
        let mut best: Option<Estimate> = None;
        let mut index: usize = 0;
        while index < 4
            invariant
                index <= 4,
                base@.wf(*catalog),
                base.s1.is_none(),
                base.s2.is_none(),
                committed < 4,
                !base@.spec_turn_hand().cards[committed as int].played,
                wagers@ == spec_split_range(base@.spec_turn_player().pillz),
                spec_affordable(wagers@, base@.spec_turn_player().pillz),
                moves@ == spec_shift_false_range(base@.spec_turn_opponent().pillz, base.round),
                spec_affordable(moves@, base@.spec_turn_opponent().pillz),
                best == spec_middle_second_cards(base@, *catalog, turn, committed, index as int),
            decreases 4 - index,
        {
            if !base.get_turn_opponent_hand().cards[index].played {
                best = Solver::rank_reply(
                    &base,
                    catalog,
                    turn,
                    committed,
                    &wagers,
                    index,
                    &moves,
                    false,
                    best,
                );
            }
            index += 1;
        }
        found(best)
    }

    /// The statistical search for one card of the side that replies, against
    /// the wagers of at least one pillz.
    pub fn middle_second_card(game: &Game, catalog: &Catalog, index: usize) -> (best: Estimate)
        requires
            game@.wf(*catalog),
            spec_awaits_reply(game@),
            index < 4,
            !game@.spec_turn_hand().cards[index as int].played,
        ensures
            best == spec_middle_second_card(game@, *catalog, index),
            best.selection.index == index,
            spec_names_move(game@, best),
    {
        proof {
            lemma_second_card_is_legal(game@, *catalog, index);
        }
        let turn = game.get_turn();
        let committed = match game.s1 {
            None => game.s2.unwrap().index,
            Some(s) => s.index,
        };
        let mut base = game.clone();
        base.clear_selection();
        assert(base@ == (GameView { s1: None, s2: None, ..game@ }));
        let wagers = split_range(base.get_turn_player().pillz);
        let moves = shift_false_range(base.get_turn_opponent().pillz, base.round);
        found(
            Solver::rank_reply(&base, catalog, turn, committed, &wagers, index, &moves, true, None),
        )
    }

    /// The one of several estimates with the highest key; the last of them
    /// where several have it.
    pub fn best_estimate(estimates: &Vec<Estimate>) -> (best: Estimate)
        requires
            estimates.len() > 0,
        ensures
            best == spec_best_estimate(estimates@, estimates.len() as int),
    {
        let mut best = estimates[0];
        let mut n: usize = 1;
        while n < estimates.len()
            invariant
                1 <= n <= estimates.len(),
                best == spec_best_estimate(estimates@, n as int),
            decreases estimates.len() - n,
        {
            let next = estimates[n];
            let key_best: i64 = best.rate as i64 * 100 + 24 - best.selection.pillz as i64;
            let key_next: i64 = next.rate as i64 * 100 + 24 - next.selection.pillz as i64;
            if !(key_best > key_next) {
                best = next;
            }
            n += 1;
        }
        best
    }
}

/// The answers for the first `n` cards of the side that opens the round,
/// those it has not played, each searched apart.
pub open spec fn spec_cards_first(game: GameView, catalog: Catalog, n: int) -> Seq<Estimate>
    decreases n,
{
    if n <= 0 {
        Seq::empty()
    } else {
        let before = spec_cards_first(game, catalog, n - 1);
        if game.spec_turn_hand().cards[n - 1].played {
            before
        } else {
            before.push(spec_middle_first_card(game, catalog, (n - 1) as usize))
        }
    }
}

/// The answers for the first `n` cards of the side that replies, those it has
/// not played, each searched apart.
pub open spec fn spec_cards_second(game: GameView, catalog: Catalog, n: int) -> Seq<Estimate>
    decreases n,
{
    if n <= 0 {
        Seq::empty()
    } else {
        let before = spec_cards_second(game, catalog, n - 1);
        if game.spec_turn_hand().cards[n - 1].played {
            before
        } else {
            before.push(spec_middle_second_card(game, catalog, (n - 1) as usize))
        }
    }
}

/// The best of several answers; the selection of nothing where there is
/// none.
pub open spec fn spec_best_or_nothing(estimates: Seq<Estimate>) -> Estimate {
    if estimates.len() == 0 {
        spec_no_estimate()
    } else {
        spec_best_estimate(estimates, estimates.len() as int)
    }
}

/// What the statistical search finds where the unplayed cards of the side
/// that opens the round are searched apart: the best of their answers.
pub open spec fn spec_middle_first_par(game: GameView, catalog: Catalog) -> Estimate {
    spec_best_or_nothing(spec_cards_first(game, catalog, 4))
}

/// What the statistical search finds where the unplayed cards of the side
/// that replies are searched apart: the best of their answers.
pub open spec fn spec_middle_second_par(game: GameView, catalog: Catalog) -> Estimate {
    spec_best_or_nothing(spec_cards_second(game, catalog, 4))
}

/// What the statistical search finds for the side that selects next: in
/// round 0 the best of the answers for the four cards, each searched apart;
/// later the answer of one search over all cards.
pub open spec fn spec_middle(game: GameView, catalog: Catalog) -> Estimate {
    if game.s1.is_some() || game.s2.is_some() {
        if game.round == 0 {
            spec_middle_second_par(game, catalog)
        } else {
            spec_middle_second(game, catalog)
        }
    } else if game.round == 0 {
        spec_middle_first_par(game, catalog)
    } else {
        spec_middle_first(game, catalog)
    }
}

impl Solver {
    /// The statistical search for the side that opens a round, card by card.
    pub fn middle_first_par(game: &Game, catalog: &Catalog) -> (best: Estimate)
        requires
            game@.wf(*catalog),
            game.s1.is_none(),
            game.s2.is_none(),
        ensures
            best == spec_middle_first_par(game@, *catalog),
            game.round < 4 ==> spec_names_move(game@, best),
    {
        proof {
            if game.round < 4 {
                lemma_middle_is_legal(game@, *catalog);
            }
        }
        let mut estimates: Vec<Estimate> = Vec::new();
        let mut index: usize = 0;
        while index < 4
            invariant
                index <= 4,
                game@.wf(*catalog),
                game.s1.is_none(),
                game.s2.is_none(),
                estimates@ == spec_cards_first(game@, *catalog, index as int),
            decreases 4 - index,
        {
            if !game.get_turn_hand().cards[index].played {
                let found = Solver::middle_first_card(game, catalog, index);
                estimates.push(found);
            }
            index += 1;
        }
        if estimates.len() == 0 {
            no_estimate()
        } else {
            Solver::best_estimate(&estimates)
        }
    }

    /// The statistical search for the side that replies, card by card.
    pub fn middle_second_par(game: &Game, catalog: &Catalog) -> (best: Estimate)
        requires
            game@.wf(*catalog),
            spec_awaits_reply(game@),
        ensures
            best == spec_middle_second_par(game@, *catalog),
            game.round < 4 ==> spec_names_move(game@, best),
    {
        proof {
            if game.round < 4 {
                lemma_middle_is_legal(game@, *catalog);
            }
        }
        let mut estimates: Vec<Estimate> = Vec::new();
        let mut index: usize = 0;
        while index < 4
            invariant
                index <= 4,
                game@.wf(*catalog),
                spec_awaits_reply(game@),
                estimates@ == spec_cards_second(game@, *catalog, index as int),
            decreases 4 - index,
        {
            if !game.get_turn_hand().cards[index].played {
                let found = Solver::middle_second_card(game, catalog, index);
                estimates.push(found);
            }
            index += 1;
        }
        if estimates.len() == 0 {
            no_estimate()
        } else {
            Solver::best_estimate(&estimates)
        }
    }

    /// The statistical search for the side that selects next.
    pub fn middle(game: &Game, catalog: &Catalog) -> (best: Estimate)
        requires
            game@.wf(*catalog),
            game.s1.is_some() || game.s2.is_some() ==> spec_awaits_reply(game@),
        ensures
            best == spec_middle(game@, *catalog),
            game.round < 4 ==> spec_names_move(game@, best),
    {
        proof {
            if game.round < 4 {
                lemma_middle_is_legal(game@, *catalog);
            }
        }
        if game.s1.is_some() || game.s2.is_some() {
            if game.round == 0 {
                Solver::middle_second_par(game, catalog)
            } else {
                Solver::middle_second(game, catalog)
            }
        } else if game.round == 0 {
            Solver::middle_first_par(game, catalog)
        } else {
            Solver::middle_first(game, catalog)
        }
    }
}

/// The estimates of the first `n` moves of `moves` for the card `index` of
/// the side that opens the round, in the order of the moves.
pub open spec fn spec_estimates_opening(
    game: GameView,
    catalog: Catalog,
    index: usize,
    moves: Seq<(u8, bool)>,
    n: int,
    skip_zero: bool,
) -> Seq<Estimate>
    decreases n,
{
    if n <= 0 {
        Seq::empty()
    } else {
        let candidate = Selection { index, pillz: moves[n - 1].0, fury: moves[n - 1].1 };
        spec_estimates_opening(game, catalog, index, moves, n - 1, skip_zero).push(
            spec_estimate(
                candidate,
                spec_tally_answers(game, catalog, candidate, 4, skip_zero),
                game.spec_turn(),
            ),
        )
    }
}

/// The estimates of the first `n` moves of `moves` for the card `index` of
/// the side that replies, in the order of the moves.
pub open spec fn spec_estimates_reply(
    base: GameView,
    catalog: Catalog,
    turn: PlayerType,
    committed: usize,
    wagers: Seq<(u8, bool)>,
    index: usize,
    moves: Seq<(u8, bool)>,
    n: int,
    skip_zero: bool,
) -> Seq<Estimate>
    decreases n,
{
    if n <= 0 {
        Seq::empty()
    } else {
        let candidate = Selection { index, pillz: moves[n - 1].0, fury: moves[n - 1].1 };
        spec_estimates_reply(
            base,
            catalog,
            turn,
            committed,
            wagers,
            index,
            moves,
            n - 1,
            skip_zero,
        ).push(
            spec_estimate(
                candidate,
                spec_tally_moves(
                    base,
                    catalog,
                    candidate,
                    false,
                    committed,
                    wagers,
                    wagers.len() as int,
                    skip_zero,
                    Counts { player: 0, draws: 0, opponent: 0 },
                ),
                turn,
            ),
        )
    }
}

/// The best of `best`, if any, and the first `n` estimates, taken in order.
pub open spec fn spec_best_ranked(estimates: Seq<Estimate>, n: int, best: Option<Estimate>) -> Option<
    Estimate,
>
    decreases n,
{
    if n <= 0 {
        best
    } else {
        Some(spec_ranked(spec_best_ranked(estimates, n - 1, best), estimates[n - 1]))
    }
}

/// The best move of a card of the side that opens the round is the best of
/// the estimates of its moves, taken in order; among moves with the same
/// rate, the one with the fewest pillz.
pub proof fn lemma_rank_opening(
    game: GameView,
    catalog: Catalog,
    index: usize,
    moves: Seq<(u8, bool)>,
    n: int,
    skip_zero: bool,
    best: Option<Estimate>,
)
    requires
        0 <= n,
    ensures
        spec_estimates_opening(game, catalog, index, moves, n, skip_zero).len() == n,
        spec_rank_opening(game, catalog, index, moves, n, skip_zero, best) == spec_best_ranked(
            spec_estimates_opening(game, catalog, index, moves, n, skip_zero),
            n,
            best,
        ),
    decreases n,
{
    if n > 0 {
        lemma_rank_opening(game, catalog, index, moves, n - 1, skip_zero, best);
        let shorter = spec_estimates_opening(game, catalog, index, moves, n - 1, skip_zero);
        let longer = spec_estimates_opening(game, catalog, index, moves, n, skip_zero);
        lemma_best_ranked_prefix(shorter, longer, n - 1, best);
    }
}

/// The best move of a card of the side that replies is the best of the
/// estimates of its moves, taken in order; among moves with the same rate,
/// the one with the fewest pillz.
pub proof fn lemma_rank_reply(
    base: GameView,
    catalog: Catalog,
    turn: PlayerType,
    committed: usize,
    wagers: Seq<(u8, bool)>,
    index: usize,
    moves: Seq<(u8, bool)>,
    n: int,
    skip_zero: bool,
    best: Option<Estimate>,
)
    requires
        0 <= n,
    ensures
        spec_estimates_reply(base, catalog, turn, committed, wagers, index, moves, n, skip_zero).len()
            == n,
        spec_rank_reply(base, catalog, turn, committed, wagers, index, moves, n, skip_zero, best)
            == spec_best_ranked(
            spec_estimates_reply(base, catalog, turn, committed, wagers, index, moves, n, skip_zero),
            n,
            best,
        ),
    decreases n,
{
    if n > 0 {
        lemma_rank_reply(base, catalog, turn, committed, wagers, index, moves, n - 1, skip_zero, best);
        let shorter = spec_estimates_reply(
            base,
            catalog,
            turn,
            committed,
            wagers,
            index,
            moves,
            n - 1,
            skip_zero,
        );
        let longer = spec_estimates_reply(
            base,
            catalog,
            turn,
            committed,
            wagers,
            index,
            moves,
            n,
            skip_zero,
        );
        lemma_best_ranked_prefix(shorter, longer, n - 1, best);
    }
}

/// Whether the estimate `best` is no worse than `other`: its rate is higher,
/// or the same with no more pillz.
pub open spec fn spec_no_worse(best: Estimate, other: Estimate) -> bool {
    best.rate > other.rate || (best.rate == other.rate && best.selection.pillz
        <= other.selection.pillz)
}

/// The estimate of one move of the side that opens the round.
pub open spec fn spec_opening_estimate(
    game: GameView,
    catalog: Catalog,
    index: usize,
    wager: (u8, bool),
    skip_zero: bool,
) -> Estimate {
    let candidate = Selection { index, pillz: wager.0, fury: wager.1 };
    spec_estimate(
        candidate,
        spec_tally_answers(game, catalog, candidate, 4, skip_zero),
        game.spec_turn(),
    )
}

/// The estimate of one move of the side that replies.
pub open spec fn spec_reply_estimate(
    base: GameView,
    catalog: Catalog,
    turn: PlayerType,
    committed: usize,
    wagers: Seq<(u8, bool)>,
    index: usize,
    wager: (u8, bool),
    skip_zero: bool,
) -> Estimate {
    let candidate = Selection { index, pillz: wager.0, fury: wager.1 };
    spec_estimate(
        candidate,
        spec_tally_moves(
            base,
            catalog,
            candidate,
            false,
            committed,
            wagers,
            wagers.len() as int,
            skip_zero,
            Counts { player: 0, draws: 0, opponent: 0 },
        ),
        turn,
    )
}

/// Whether an estimate is that of a move which the side that opens the round
/// can make on one of its first `n` cards: a move of `spec_shift_false_range`
/// on a card that was not played, with the counts of that move.
pub open spec fn spec_is_opening(game: GameView, catalog: Catalog, n: int, estimate: Estimate) -> bool {
    exists|card: int, k: int|
        0 <= card < n && !game.spec_turn_hand().cards[card].played && 0 <= k
            < spec_shift_false_range(game.spec_turn_player().pillz, game.round).len() && estimate
            == #[trigger] spec_opening_estimate(
            game,
            catalog,
            card as usize,
            spec_shift_false_range(game.spec_turn_player().pillz, game.round)[k],
            false,
        )
}

/// Whether an estimate is that of a move which the side that replies can
/// make on one of its first `n` cards.
pub open spec fn spec_is_reply(
    base: GameView,
    catalog: Catalog,
    turn: PlayerType,
    committed: usize,
    n: int,
    estimate: Estimate,
) -> bool {
    exists|card: int, k: int|
        0 <= card < n && !base.spec_turn_opponent_hand().cards[card].played && 0 <= k
            < spec_shift_false_range(base.spec_turn_opponent().pillz, base.round).len()
            && estimate == #[trigger] spec_reply_estimate(
            base,
            catalog,
            turn,
            committed,
            spec_split_range(base.spec_turn_player().pillz),
            card as usize,
            spec_shift_false_range(base.spec_turn_opponent().pillz, base.round)[k],
            false,
        )
}

/// The best move of a card of the side that opens the round is no worse than
/// the best that the ranking started from, and no worse than any move of the
/// card; and it is that best or one of the moves of the card.
pub proof fn lemma_rank_opening_best(
    game: GameView,
    catalog: Catalog,
    index: usize,
    moves: Seq<(u8, bool)>,
    n: int,
    skip_zero: bool,
    best: Option<Estimate>,
)
    requires
        0 <= n,
    ensures
        ({
            let top = spec_rank_opening(game, catalog, index, moves, n, skip_zero, best);
            &&& n > 0 || best.is_some() ==> top.is_some()
            &&& best matches Some(seen) ==> spec_no_worse(top.unwrap(), seen)
            &&& forall|k: int|
                0 <= k < n ==> spec_no_worse(
                    top.unwrap(),
                    #[trigger] spec_opening_estimate(game, catalog, index, moves[k], skip_zero),
                )
            &&& top == best || exists|k: int|
                0 <= k < n && top == Some(
                    #[trigger] spec_opening_estimate(game, catalog, index, moves[k], skip_zero),
                )
        }),
    decreases n,
{
    if n > 0 {
        lemma_rank_opening_best(game, catalog, index, moves, n - 1, skip_zero, best);
        let before = spec_rank_opening(game, catalog, index, moves, n - 1, skip_zero, best);
        let top = spec_rank_opening(game, catalog, index, moves, n, skip_zero, best);
        let new = spec_opening_estimate(game, catalog, index, moves[n - 1], skip_zero);
        assert(top == Some(spec_ranked(before, new)));
        if top != best {
            if top == Some(new) {
            } else {
                assert(top == before);
                let k = choose|k: int|
                    0 <= k < n - 1 && before == Some(
                        #[trigger] spec_opening_estimate(game, catalog, index, moves[k], skip_zero),
                    );
                assert(0 <= k < n && top == Some(
                    spec_opening_estimate(game, catalog, index, moves[k], skip_zero),
                ));
            }
        }
    }
}

/// The best move of a card of the side that replies is no worse than the
/// best that the ranking started from, and no worse than any move of the
/// card; and it is that best or one of the moves of the card.
pub proof fn lemma_rank_reply_best(
    base: GameView,
    catalog: Catalog,
    turn: PlayerType,
    committed: usize,
    wagers: Seq<(u8, bool)>,
    index: usize,
    moves: Seq<(u8, bool)>,
    n: int,
    skip_zero: bool,
    best: Option<Estimate>,
)
    requires
        0 <= n,
    ensures
        ({
            let top = spec_rank_reply(
                base,
                catalog,
                turn,
                committed,
                wagers,
                index,
                moves,
                n,
                skip_zero,
                best,
            );
            &&& n > 0 || best.is_some() ==> top.is_some()
            &&& best matches Some(seen) ==> spec_no_worse(top.unwrap(), seen)
            &&& forall|k: int|
                0 <= k < n ==> spec_no_worse(
                    top.unwrap(),
                    #[trigger] spec_reply_estimate(
                        base,
                        catalog,
                        turn,
                        committed,
                        wagers,
                        index,
                        moves[k],
                        skip_zero,
                    ),
                )
            &&& top == best || exists|k: int|
                0 <= k < n && top == Some(
                    #[trigger] spec_reply_estimate(
                        base,
                        catalog,
                        turn,
                        committed,
                        wagers,
                        index,
                        moves[k],
                        skip_zero,
                    ),
                )
        }),
    decreases n,
{
    if n > 0 {
        lemma_rank_reply_best(
            base,
            catalog,
            turn,
            committed,
            wagers,
            index,
            moves,
            n - 1,
            skip_zero,
            best,
        );
        let before = spec_rank_reply(
            base,
            catalog,
            turn,
            committed,
            wagers,
            index,
            moves,
            n - 1,
            skip_zero,
            best,
        );
        let top = spec_rank_reply(
            base,
            catalog,
            turn,
            committed,
            wagers,
            index,
            moves,
            n,
            skip_zero,
            best,
        );
        let new = spec_reply_estimate(
            base,
            catalog,
            turn,
            committed,
            wagers,
            index,
            moves[n - 1],
            skip_zero,
        );
        assert(top == Some(spec_ranked(before, new)));
        if top != best {
            if top == Some(new) {
            } else {
                assert(top == before);
                let k = choose|k: int|
                    0 <= k < n - 1 && before == Some(
                        #[trigger] spec_reply_estimate(
                            base,
                            catalog,
                            turn,
                            committed,
                            wagers,
                            index,
                            moves[k],
                            skip_zero,
                        ),
                    );
                assert(0 <= k < n && top == Some(
                    spec_reply_estimate(
                        base,
                        catalog,
                        turn,
                        committed,
                        wagers,
                        index,
                        moves[k],
                        skip_zero,
                    ),
                ));
            }
        }
    }
}

/// The best move over the first cards of the side that opens the round is
/// one of the moves on these cards, where one of them was not played, and no
/// worse than any of these moves.
pub proof fn lemma_first_cards_best(game: GameView, catalog: Catalog, n: int)
    requires
        0 <= n <= 4,
    ensures
        ({
            let best = spec_middle_first_cards(game, catalog, n);
            &&& best.is_some() == (exists|card: int|
                0 <= card < n && !(#[trigger] game.spec_turn_hand().cards[card]).played)
            &&& best matches Some(seen) ==> spec_is_opening(game, catalog, n, seen)
            &&& forall|card: int, k: int|
                #![trigger spec_opening_estimate(
                    game,
                    catalog,
                    card as usize,
                    spec_shift_false_range(game.spec_turn_player().pillz, game.round)[k],
                    false,
                )]
                0 <= card < n && !game.spec_turn_hand().cards[card].played && 0 <= k
                    < spec_shift_false_range(game.spec_turn_player().pillz, game.round).len()
                    ==> spec_no_worse(
                    best.unwrap(),
                    spec_opening_estimate(
                        game,
                        catalog,
                        card as usize,
                        spec_shift_false_range(game.spec_turn_player().pillz, game.round)[k],
                        false,
                    ),
                )
        }),
    decreases n,
{
    if n > 0 {
        lemma_first_cards_best(game, catalog, n - 1);
        let before = spec_middle_first_cards(game, catalog, n - 1);
        let best = spec_middle_first_cards(game, catalog, n);
        let moves = spec_shift_false_range(game.spec_turn_player().pillz, game.round);
        assert(moves.len() > 0);
        if !game.spec_turn_hand().cards[n - 1].played {
            lemma_rank_opening_best(
                game,
                catalog,
                (n - 1) as usize,
                moves,
                moves.len() as int,
                false,
                before,
            );
            assert(!game.spec_turn_hand().cards[n - 1].played);
            if best == before {
                let seen = before.unwrap();
                let (card, k) = choose|card: int, k: int|
                    0 <= card < n - 1 && !game.spec_turn_hand().cards[card].played && 0 <= k
                        < moves.len() && seen == #[trigger] spec_opening_estimate(
                        game,
                        catalog,
                        card as usize,
                        moves[k],
                        false,
                    );
                assert(0 <= card < n && seen == spec_opening_estimate(
                    game,
                    catalog,
                    card as usize,
                    moves[k],
                    false,
                ));
            } else {
                let k = choose|k: int|
                    0 <= k < moves.len() && best == Some(
                        #[trigger] spec_opening_estimate(
                            game,
                            catalog,
                            (n - 1) as usize,
                            moves[k],
                            false,
                        ),
                    );
                assert(best.unwrap() == spec_opening_estimate(
                    game,
                    catalog,
                    (n - 1) as usize,
                    moves[k],
                    false,
                ));
            }
        } else if before.is_some() {
            let seen = before.unwrap();
            let (card, k) = choose|card: int, k: int|
                0 <= card < n - 1 && !game.spec_turn_hand().cards[card].played && 0 <= k
                    < moves.len() && seen == #[trigger] spec_opening_estimate(
                    game,
                    catalog,
                    card as usize,
                    moves[k],
                    false,
                );
            assert(0 <= card < n && seen == spec_opening_estimate(
                game,
                catalog,
                card as usize,
                moves[k],
                false,
            ));
        }
    }
}

/// Where the side that opens a round has a card that it has not played, what
/// the statistical search finds is one of the moves that the side can make,
/// with the counts of that move, and so names a card that was not played.
pub proof fn lemma_middle_first_is_candidate(game: GameView, catalog: Catalog, card: int)
    requires
        0 <= card < 4,
        !game.spec_turn_hand().cards[card].played,
    ensures
        spec_is_opening(game, catalog, 4, spec_middle_first(game, catalog)),
        spec_middle_first(game, catalog).selection.index < 4,
        !game.spec_turn_hand().cards[spec_middle_first(game, catalog).selection.index as int].played,
{
    lemma_first_cards_best(game, catalog, 4);
    assert(!game.spec_turn_hand().cards[card].played);
    let best = spec_middle_first(game, catalog);
    let moves = spec_shift_false_range(game.spec_turn_player().pillz, game.round);
    let (at, k) = choose|at: int, k: int|
        0 <= at < 4 && !game.spec_turn_hand().cards[at].played && 0 <= k < moves.len() && best
            == #[trigger] spec_opening_estimate(game, catalog, at as usize, moves[k], false);
    assert(best.selection.index == at as usize);
}

/// While a match is not over, what the statistical search finds for the side
/// that opens a round is a move that the side may make: one of those that the
/// search ranks, on a card that was not played, for pillz that the side has.
pub proof fn lemma_middle_first_is_legal(game: GameView, catalog: Catalog)
    requires
        game.wf(catalog),
        game.round < 4,
        game.s1.is_none(),
        game.s2.is_none(),
    ensures
        spec_is_opening(game, catalog, 4, spec_middle_first(game, catalog)),
        game.spec_can_select(
            spec_middle_first(game, catalog).selection.index,
            spec_middle_first(game, catalog).selection.pillz,
            spec_middle_first(game, catalog).selection.fury,
        ),
{
    let hand = game.spec_turn_hand();
    let free = if !hand.cards[0].played {
        0int
    } else if !hand.cards[1].played {
        1int
    } else if !hand.cards[2].played {
        2int
    } else {
        3int
    };
    assert(!hand.cards[free].played);
    lemma_middle_first_is_candidate(game, catalog, free);
    lemma_ranges_affordable(game.spec_turn_player().pillz, game.round);
    let best = spec_middle_first(game, catalog);
    let moves = spec_shift_false_range(game.spec_turn_player().pillz, game.round);
    let (at, k) = choose|at: int, k: int|
        0 <= at < 4 && !game.spec_turn_hand().cards[at].played && 0 <= k < moves.len() && best
            == #[trigger] spec_opening_estimate(game, catalog, at as usize, moves[k], false);
    assert(best.selection == Selection { index: at as usize, pillz: moves[k].0, fury: moves[k].1 });
    assert((Selection { index: 0, pillz: moves[k].0, fury: moves[k].1 }).spec_cost()
        <= game.spec_turn_player().pillz);
}

/// What the statistical search finds for the side that opens a round is no
/// worse than any move that the side can make: no move has a higher rate, and
/// none with the same rate costs fewer pillz.
pub proof fn lemma_middle_first_best(game: GameView, catalog: Catalog, card: int, k: int)
    requires
        0 <= card < 4,
        !game.spec_turn_hand().cards[card].played,
        0 <= k < spec_shift_false_range(game.spec_turn_player().pillz, game.round).len(),
    ensures
        spec_no_worse(
            spec_middle_first(game, catalog),
            spec_opening_estimate(
                game,
                catalog,
                card as usize,
                spec_shift_false_range(game.spec_turn_player().pillz, game.round)[k],
                false,
            ),
        ),
{
    lemma_first_cards_best(game, catalog, 4);
}

/// The best move over the first cards of the side that replies is one of the
/// moves on these cards, where one of them was not played, and no worse than
/// any of these moves.
pub proof fn lemma_second_cards_best(
    base: GameView,
    catalog: Catalog,
    turn: PlayerType,
    committed: usize,
    n: int,
)
    requires
        0 <= n <= 4,
    ensures
        ({
            let best = spec_middle_second_cards(base, catalog, turn, committed, n);
            &&& best.is_some() == (exists|card: int|
                0 <= card < n && !(#[trigger] base.spec_turn_opponent_hand().cards[card]).played)
            &&& best matches Some(seen) ==> spec_is_reply(base, catalog, turn, committed, n, seen)
            &&& forall|card: int, k: int|
                #![trigger spec_reply_estimate(
                    base,
                    catalog,
                    turn,
                    committed,
                    spec_split_range(base.spec_turn_player().pillz),
                    card as usize,
                    spec_shift_false_range(base.spec_turn_opponent().pillz, base.round)[k],
                    false,
                )]
                0 <= card < n && !base.spec_turn_opponent_hand().cards[card].played && 0 <= k
                    < spec_shift_false_range(base.spec_turn_opponent().pillz, base.round).len()
                    ==> spec_no_worse(
                    best.unwrap(),
                    spec_reply_estimate(
                        base,
                        catalog,
                        turn,
                        committed,
                        spec_split_range(base.spec_turn_player().pillz),
                        card as usize,
                        spec_shift_false_range(base.spec_turn_opponent().pillz, base.round)[k],
                        false,
                    ),
                )
        }),
    decreases n,
{
    if n > 0 {
        lemma_second_cards_best(base, catalog, turn, committed, n - 1);
        let before = spec_middle_second_cards(base, catalog, turn, committed, n - 1);
        let best = spec_middle_second_cards(base, catalog, turn, committed, n);
        let moves = spec_shift_false_range(base.spec_turn_opponent().pillz, base.round);
        let wagers = spec_split_range(base.spec_turn_player().pillz);
        assert(moves.len() > 0);
        if !base.spec_turn_opponent_hand().cards[n - 1].played {
            lemma_rank_reply_best(
                base,
                catalog,
                turn,
                committed,
                wagers,
                (n - 1) as usize,
                moves,
                moves.len() as int,
                false,
                before,
            );
            assert(!base.spec_turn_opponent_hand().cards[n - 1].played);
            if best == before {
                let seen = before.unwrap();
                let (card, k) = choose|card: int, k: int|
                    0 <= card < n - 1 && !base.spec_turn_opponent_hand().cards[card].played && 0
                        <= k < moves.len() && seen == #[trigger] spec_reply_estimate(
                        base,
                        catalog,
                        turn,
                        committed,
                        wagers,
                        card as usize,
                        moves[k],
                        false,
                    );
                assert(0 <= card < n && seen == spec_reply_estimate(
                    base,
                    catalog,
                    turn,
                    committed,
                    wagers,
                    card as usize,
                    moves[k],
                    false,
                ));
            } else {
                let k = choose|k: int|
                    0 <= k < moves.len() && best == Some(
                        #[trigger] spec_reply_estimate(
                            base,
                            catalog,
                            turn,
                            committed,
                            wagers,
                            (n - 1) as usize,
                            moves[k],
                            false,
                        ),
                    );
                assert(best.unwrap() == spec_reply_estimate(
                    base,
                    catalog,
                    turn,
                    committed,
                    wagers,
                    (n - 1) as usize,
                    moves[k],
                    false,
                ));
            }
        } else if before.is_some() {
            let seen = before.unwrap();
            let (card, k) = choose|card: int, k: int|
                0 <= card < n - 1 && !base.spec_turn_opponent_hand().cards[card].played && 0 <= k
                    < moves.len() && seen == #[trigger] spec_reply_estimate(
                    base,
                    catalog,
                    turn,
                    committed,
                    wagers,
                    card as usize,
                    moves[k],
                    false,
                );
            assert(0 <= card < n && seen == spec_reply_estimate(
                base,
                catalog,
                turn,
                committed,
                wagers,
                card as usize,
                moves[k],
                false,
            ));
        }
    }
}

/// Where the side that replies has a card that it has not played, what the
/// statistical search finds is one of the moves that the side can make, with
/// the counts of that move, and so names a card that was not played.
pub proof fn lemma_middle_second_is_candidate(game: GameView, catalog: Catalog, card: int)
    requires
        0 <= card < 4,
        !(GameView { s1: None, s2: None, ..game }).spec_turn_opponent_hand().cards[card].played,
    ensures
        ({
            let base = GameView { s1: None, s2: None, ..game };
            let best = spec_middle_second(game, catalog);
            &&& spec_is_reply(base, catalog, game.spec_turn(), spec_committed(game), 4, best)
            &&& best.selection.index < 4
            &&& !base.spec_turn_opponent_hand().cards[best.selection.index as int].played
        }),
{
    let base = GameView { s1: None, s2: None, ..game };
    let turn = game.spec_turn();
    let committed = spec_committed(game);
    lemma_second_cards_best(base, catalog, turn, committed, 4);
    assert(!base.spec_turn_opponent_hand().cards[card].played);
    let best = spec_middle_second(game, catalog);
    let moves = spec_shift_false_range(base.spec_turn_opponent().pillz, base.round);
    let wagers = spec_split_range(base.spec_turn_player().pillz);
    let (at, k) = choose|at: int, k: int|
        0 <= at < 4 && !base.spec_turn_opponent_hand().cards[at].played && 0 <= k < moves.len()
            && best == #[trigger] spec_reply_estimate(
            base,
            catalog,
            turn,
            committed,
            wagers,
            at as usize,
            moves[k],
            false,
        );
    assert(best.selection.index == at as usize);
}

/// While a match is not over, what the statistical search finds for the side
/// that replies is a move that the side may make: one of those that the
/// search ranks, on a card that was not played, for pillz that the side has.
pub proof fn lemma_middle_second_is_legal(game: GameView, catalog: Catalog)
    requires
        game.wf(catalog),
        game.round < 4,
        spec_awaits_reply(game),
    ensures
        spec_is_reply(
            GameView { s1: None, s2: None, ..game },
            catalog,
            game.spec_turn(),
            spec_committed(game),
            4,
            spec_middle_second(game, catalog),
        ),
        game.spec_can_select(
            spec_middle_second(game, catalog).selection.index,
            spec_middle_second(game, catalog).selection.pillz,
            spec_middle_second(game, catalog).selection.fury,
        ),
{
    let base = GameView { s1: None, s2: None, ..game };
    let hand = base.spec_turn_opponent_hand();
    assert(hand == game.spec_turn_hand());
    assert(base.spec_turn_opponent() == game.spec_turn_player());
    let free = if !hand.cards[0].played {
        0int
    } else if !hand.cards[1].played {
        1int
    } else if !hand.cards[2].played {
        2int
    } else {
        3int
    };
    assert(!hand.cards[free].played);
    lemma_middle_second_is_candidate(game, catalog, free);
    lemma_ranges_affordable(base.spec_turn_opponent().pillz, base.round);
    let best = spec_middle_second(game, catalog);
    let turn = game.spec_turn();
    let committed = spec_committed(game);
    let moves = spec_shift_false_range(base.spec_turn_opponent().pillz, base.round);
    let wagers = spec_split_range(base.spec_turn_player().pillz);
    let (at, k) = choose|at: int, k: int|
        0 <= at < 4 && !base.spec_turn_opponent_hand().cards[at].played && 0 <= k < moves.len()
            && best == #[trigger] spec_reply_estimate(
            base,
            catalog,
            turn,
            committed,
            wagers,
            at as usize,
            moves[k],
            false,
        );
    assert(best.selection == Selection { index: at as usize, pillz: moves[k].0, fury: moves[k].1 });
    assert((Selection { index: 0, pillz: moves[k].0, fury: moves[k].1 }).spec_cost()
        <= base.spec_turn_opponent().pillz);
}

/// What the statistical search finds for the side that replies is no worse
/// than any move that the side can make: no move has a higher rate, and none
/// with the same rate costs fewer pillz.
pub proof fn lemma_middle_second_best(game: GameView, catalog: Catalog, card: int, k: int)
    requires
        0 <= card < 4,
        !(GameView { s1: None, s2: None, ..game }).spec_turn_opponent_hand().cards[card].played,
        0 <= k < spec_shift_false_range(
            (GameView { s1: None, s2: None, ..game }).spec_turn_opponent().pillz,
            game.round,
        ).len(),
    ensures
        ({
            let base = GameView { s1: None, s2: None, ..game };
            spec_no_worse(
                spec_middle_second(game, catalog),
                spec_reply_estimate(
                    base,
                    catalog,
                    game.spec_turn(),
                    spec_committed(game),
                    spec_split_range(base.spec_turn_player().pillz),
                    card as usize,
                    spec_shift_false_range(base.spec_turn_opponent().pillz, base.round)[k],
                    false,
                ),
            )
        }),
{
    let base = GameView { s1: None, s2: None, ..game };
    lemma_second_cards_best(base, catalog, game.spec_turn(), spec_committed(game), 4);
}

/// Whether the side that selects next may make the move that an estimate
/// names.
pub open spec fn spec_names_move(game: GameView, estimate: Estimate) -> bool {
    game.spec_can_select(
        estimate.selection.index,
        estimate.selection.pillz,
        estimate.selection.fury,
    )
}

/// What the statistical search finds for one card of the side that opens a
/// round is a move on that card that the side may make.
pub proof fn lemma_first_card_is_legal(game: GameView, catalog: Catalog, index: usize)
    requires
        index < 4,
        !game.spec_turn_hand().cards[index as int].played,
    ensures
        spec_middle_first_card(game, catalog, index).selection.index == index,
        spec_names_move(game, spec_middle_first_card(game, catalog, index)),
{
    let moves = spec_shift_false_range(game.spec_turn_player().pillz, game.round);
    lemma_ranges_affordable(game.spec_turn_player().pillz, game.round);
    lemma_rank_opening_best(game, catalog, index, moves, moves.len() as int, true, None);
    let top = spec_rank_opening(game, catalog, index, moves, moves.len() as int, true, None);
    let k = choose|k: int|
        0 <= k < moves.len() && top == Some(
            #[trigger] spec_opening_estimate(game, catalog, index, moves[k], true),
        );
    assert(top.unwrap().selection == Selection { index, pillz: moves[k].0, fury: moves[k].1 });
    assert((Selection { index: 0, pillz: moves[k].0, fury: moves[k].1 }).spec_cost()
        <= game.spec_turn_player().pillz);
}

/// What the statistical search finds for one card of the side that replies
/// is a move on that card that the side may make.
pub proof fn lemma_second_card_is_legal(game: GameView, catalog: Catalog, index: usize)
    requires
        spec_awaits_reply(game),
        index < 4,
        !game.spec_turn_hand().cards[index as int].played,
    ensures
        spec_middle_second_card(game, catalog, index).selection.index == index,
        spec_names_move(game, spec_middle_second_card(game, catalog, index)),
{
    let base = GameView { s1: None, s2: None, ..game };
    assert(base.spec_turn_opponent_hand() == game.spec_turn_hand());
    assert(base.spec_turn_opponent() == game.spec_turn_player());
    let turn = game.spec_turn();
    let committed = spec_committed(game);
    let moves = spec_shift_false_range(base.spec_turn_opponent().pillz, base.round);
    let wagers = spec_split_range(base.spec_turn_player().pillz);
    lemma_ranges_affordable(base.spec_turn_opponent().pillz, base.round);
    lemma_rank_reply_best(
        base,
        catalog,
        turn,
        committed,
        wagers,
        index,
        moves,
        moves.len() as int,
        true,
        None,
    );
    let top = spec_rank_reply(
        base,
        catalog,
        turn,
        committed,
        wagers,
        index,
        moves,
        moves.len() as int,
        true,
        None,
    );
    let k = choose|k: int|
        0 <= k < moves.len() && top == Some(
            #[trigger] spec_reply_estimate(
                base,
                catalog,
                turn,
                committed,
                wagers,
                index,
                moves[k],
                true,
            ),
        );
    assert(top.unwrap().selection == Selection { index, pillz: moves[k].0, fury: moves[k].1 });
    assert((Selection { index: 0, pillz: moves[k].0, fury: moves[k].1 }).spec_cost()
        <= base.spec_turn_opponent().pillz);
}

/// The best of several estimates is one of them.
pub proof fn lemma_best_estimate_is_one(estimates: Seq<Estimate>, n: int)
    requires
        1 <= n <= estimates.len(),
    ensures
        exists|i: int| 0 <= i < n && spec_best_estimate(estimates, n) == #[trigger] estimates[i],
    decreases n,
{
    if n > 1 {
        lemma_best_estimate_is_one(estimates, n - 1);
        let before = spec_best_estimate(estimates, n - 1);
        if spec_key(before) > spec_key(estimates[n - 1]) {
            let i = choose|i: int| 0 <= i < n - 1 && before == #[trigger] estimates[i];
            assert(0 <= i < n && spec_best_estimate(estimates, n) == estimates[i]);
        } else {
            assert(spec_best_estimate(estimates, n) == estimates[n - 1]);
        }
    } else {
        assert(spec_best_estimate(estimates, n) == estimates[0]);
    }
}

/// The answers for the cards of the side that opens the round, each searched
/// apart, are moves that the side may make, and there is one for each card
/// that was not played.
pub proof fn lemma_cards_first_legal(game: GameView, catalog: Catalog, n: int)
    requires
        0 <= n <= 4,
    ensures
        forall|i: int|
            0 <= i < spec_cards_first(game, catalog, n).len() ==> spec_names_move(
                game,
                #[trigger] spec_cards_first(game, catalog, n)[i],
            ),
        forall|card: int|
            0 <= card < n && !(#[trigger] game.spec_turn_hand().cards[card]).played
                ==> spec_cards_first(game, catalog, n).len() > 0,
    decreases n,
{
    if n > 0 {
        lemma_cards_first_legal(game, catalog, n - 1);
        let before = spec_cards_first(game, catalog, n - 1);
        let entries = spec_cards_first(game, catalog, n);
        if !game.spec_turn_hand().cards[n - 1].played {
            lemma_first_card_is_legal(game, catalog, (n - 1) as usize);
            assert forall|i: int| 0 <= i < entries.len() implies spec_names_move(
                game,
                #[trigger] entries[i],
            ) by {
                if i < before.len() {
                    assert(entries[i] == before[i]);
                }
            }
        }
    }
}

/// The answers for the cards of the side that replies, each searched apart,
/// are moves that the side may make, and there is one for each card that was
/// not played.
pub proof fn lemma_cards_second_legal(game: GameView, catalog: Catalog, n: int)
    requires
        spec_awaits_reply(game),
        0 <= n <= 4,
    ensures
        forall|i: int|
            0 <= i < spec_cards_second(game, catalog, n).len() ==> spec_names_move(
                game,
                #[trigger] spec_cards_second(game, catalog, n)[i],
            ),
        forall|card: int|
            0 <= card < n && !(#[trigger] game.spec_turn_hand().cards[card]).played
                ==> spec_cards_second(game, catalog, n).len() > 0,
    decreases n,
{
    if n > 0 {
        lemma_cards_second_legal(game, catalog, n - 1);
        let before = spec_cards_second(game, catalog, n - 1);
        let entries = spec_cards_second(game, catalog, n);
        if !game.spec_turn_hand().cards[n - 1].played {
            lemma_second_card_is_legal(game, catalog, (n - 1) as usize);
            assert forall|i: int| 0 <= i < entries.len() implies spec_names_move(
                game,
                #[trigger] entries[i],
            ) by {
                if i < before.len() {
                    assert(entries[i] == before[i]);
                }
            }
        }
    }
}

/// While a match is not over, what the statistical search finds for the side
/// that selects next is a move that the side may make, whichever of its forms
/// is asked.
pub proof fn lemma_middle_is_legal(game: GameView, catalog: Catalog)
    requires
        game.wf(catalog),
        game.round < 4,
        (game.s1.is_none() && game.s2.is_none()) || spec_awaits_reply(game),
    ensures
        spec_names_move(game, spec_middle(game, catalog)),
        game.s1.is_none() && game.s2.is_none() ==> spec_names_move(
            game,
            spec_middle_first(game, catalog),
        ) && spec_names_move(game, spec_middle_first_par(game, catalog)),
        spec_awaits_reply(game) ==> spec_names_move(game, spec_middle_second(game, catalog))
            && spec_names_move(game, spec_middle_second_par(game, catalog)),
{
    let hand = game.spec_turn_hand();
    let free = if !hand.cards[0].played {
        0int
    } else if !hand.cards[1].played {
        1int
    } else if !hand.cards[2].played {
        2int
    } else {
        3int
    };
    assert(!hand.cards[free].played);
    if game.s1.is_none() && game.s2.is_none() {
        lemma_middle_first_is_legal(game, catalog);
        lemma_cards_first_legal(game, catalog, 4);
        let estimates = spec_cards_first(game, catalog, 4);
        lemma_best_estimate_is_one(estimates, estimates.len() as int);
    } else {
        lemma_middle_second_is_legal(game, catalog);
        lemma_cards_second_legal(game, catalog, 4);
        let estimates = spec_cards_second(game, catalog, 4);
        lemma_best_estimate_is_one(estimates, estimates.len() as int);
    }
}

/// The best of the first estimates does not depend on those that follow.
pub proof fn lemma_best_ranked_prefix(
    shorter: Seq<Estimate>,
    longer: Seq<Estimate>,
    n: int,
    best: Option<Estimate>,
)
    requires
        0 <= n <= shorter.len() <= longer.len(),
        forall|i: int| 0 <= i < shorter.len() ==> shorter[i] == longer[i],
    ensures
        spec_best_ranked(shorter, n, best) == spec_best_ranked(longer, n, best),
    decreases n,
{
    if n > 0 {
        lemma_best_ranked_prefix(shorter, longer, n - 1, best);
    }
}

impl Solver {
    /// The estimate of each move of `spec_shift_false_range` on a card of the
    /// side that opens the round, in the order of the moves.
    pub fn estimates_first(game: &Game, catalog: &Catalog, index: usize, skip_zero: bool) -> (estimates:
        Vec<Estimate>)
        requires
            game@.wf(*catalog),
            game.s1.is_none(),
            game.s2.is_none(),
            index < 4,
            !game@.spec_turn_hand().cards[index as int].played,
        ensures
            estimates@ == spec_estimates_opening(
                game@,
                *catalog,
                index,
                spec_shift_false_range(game@.spec_turn_player().pillz, game.round),
                spec_shift_false_range(game@.spec_turn_player().pillz, game.round).len() as int,
                skip_zero,
            ),
    {
        let turn = game.get_turn();
        let moves = shift_false_range(game.get_turn_player().pillz, game.round);
        let mut estimates: Vec<Estimate> = Vec::new();
        let mut k: usize = 0;
        while k < moves.len()
            invariant
                k <= moves.len(),
                game@.wf(*catalog),
                game.s1.is_none(),
                game.s2.is_none(),
                index < 4,
                !game@.spec_turn_hand().cards[index as int].played,
                spec_affordable(moves@, game@.spec_turn_player().pillz),
                turn == game@.spec_turn(),
                estimates@ == spec_estimates_opening(
                    game@,
                    *catalog,
                    index,
                    moves@,
                    k as int,
                    skip_zero,
                ),
            decreases moves.len() - k,
        {
            let (pillz, fury) = moves[k];
            let candidate = Selection { index, pillz, fury };
            let tally = Solver::tally_answers(game, catalog, candidate, skip_zero);
            estimates.push(estimate(candidate, tally, turn));
            k += 1;
        }
        estimates
    }

    /// The estimate of each move of `spec_shift_false_range` on a card of the
    /// side that replies, in the order of the moves.
    pub fn estimates_second(game: &Game, catalog: &Catalog, index: usize, skip_zero: bool) -> (estimates:
        Vec<Estimate>)
        requires
            game@.wf(*catalog),
            spec_awaits_reply(game@),
            index < 4,
            !game@.spec_turn_hand().cards[index as int].played,
        ensures
            estimates@ == ({
                let base = GameView { s1: None, s2: None, ..game@ };
                let moves = spec_shift_false_range(base.spec_turn_opponent().pillz, base.round);
                spec_estimates_reply(
                    base,
                    *catalog,
                    game@.spec_turn(),
                    spec_committed(game@),
                    spec_split_range(base.spec_turn_player().pillz),
                    index,
                    moves,
                    moves.len() as int,
                    skip_zero,
                )
            }),
    {
        let turn = game.get_turn();
        let committed = match game.s1 {
            None => game.s2.unwrap().index,
            Some(s) => s.index,
        };
        let mut base = game.clone();
        base.clear_selection();
        assert(base@ == (GameView { s1: None, s2: None, ..game@ }));
        let wagers = split_range(base.get_turn_player().pillz);
        let moves = shift_false_range(base.get_turn_opponent().pillz, base.round);
        let mut estimates: Vec<Estimate> = Vec::new();
        let mut k: usize = 0;
        while k < moves.len()
            invariant
                k <= moves.len(),
                base@.wf(*catalog),
                base.s1.is_none(),
                base.s2.is_none(),
                committed < 4,
                !base@.spec_turn_hand().cards[committed as int].played,
                spec_affordable(wagers@, base@.spec_turn_player().pillz),
                wagers.len() <= 509,
                index < 4,
                !base@.spec_turn_opponent_hand().cards[index as int].played,
                spec_affordable(moves@, base@.spec_turn_opponent().pillz),
                estimates@ == spec_estimates_reply(
                    base@,
                    *catalog,
                    turn,
                    committed,
                    wagers@,
                    index,
                    moves@,
                    k as int,
                    skip_zero,
                ),
            decreases moves.len() - k,
        {
            let (pillz, fury) = moves[k];
            let candidate = Selection { index, pillz, fury };
            let none = Tally { player: 0, draws: 0, opponent: 0 };
            proof {
                lemma_tally_moves_bound(
                    base@,
                    *catalog,
                    candidate,
                    false,
                    committed,
                    wagers@,
                    wagers.len() as int,
                    skip_zero,
                    spec_counts(none),
                );
            }
            let tally = Solver::tally_moves(
                &base,
                catalog,
                candidate,
                false,
                committed,
                &wagers,
                skip_zero,
                none,
            );
            estimates.push(estimate(candidate, tally, turn));
            k += 1;
        }
        estimates
    }
}

} // verus!
