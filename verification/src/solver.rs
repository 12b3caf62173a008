use vstd::prelude::*;
use crate::catalog::Catalog;
use crate::game::{lemma_count_played, Game, GameStatus, GameView, PlayerType, Selection};

verus! {

/// How a match ends for the side that moves.
#[derive(Debug, Clone, Copy, PartialEq, Eq, Structural)]
pub enum GameResult {
    Win,
    Draw,
    Lose,
}

/// The outcome that a search has found, with the selection that leads to it:
/// a win of the player, a draw, or a win of the opponent.
#[derive(Debug, Clone, Copy, PartialEq, Eq, Structural)]
pub enum SelectionResult {
    Player(Selection),
    Draw(Selection),
    Opponent(Selection),
}

/// `format!` on two strings, the second in round brackets behind the first.
#[verifier::external_body]
fn format_tagged(tag: &str, text: &str) -> (tagged: String)
    ensures
        tagged@ == tag@ + seq!['('] + text@ + seq![')'],
{
    format!("{}({})", tag, text)
}

impl SelectionResult {
    /// The name of the outcome.
    pub open spec fn spec_tag(self) -> Seq<char> {
        match self {
            SelectionResult::Player(_) => "Player"@,
            SelectionResult::Draw(_) => "Draw"@,
            SelectionResult::Opponent(_) => "Opponent"@,
        }
    }

    /// The outcome in words: its name and, in brackets, the selection.
    pub open spec fn spec_describe(self) -> Seq<char> {
        self.spec_tag() + seq!['('] + self.spec_selection().spec_describe() + seq![')']
    }

    /// The outcome in words.
    pub fn describe(&self) -> (text: String)
        ensures
            text@ == self.spec_describe(),
    {
        let selection = self.selection().describe();
        match self {
            SelectionResult::Player(_) => format_tagged("Player", selection.as_str()),
            SelectionResult::Draw(_) => format_tagged("Draw", selection.as_str()),
            SelectionResult::Opponent(_) => format_tagged("Opponent", selection.as_str()),
        }
    }

    /// The selection that leads to the outcome.
    pub open spec fn spec_selection(self) -> Selection {
        match self {
            SelectionResult::Player(s) => s,
            SelectionResult::Draw(s) => s,
            SelectionResult::Opponent(s) => s,
        }
    }

    /// What the outcome means for the side `turn`.
    pub open spec fn spec_verdict(self, turn: PlayerType) -> GameResult {
        match self {
            SelectionResult::Draw(_) => GameResult::Draw,
            SelectionResult::Player(_) => if turn == PlayerType::Player {
                GameResult::Win
            } else {
                GameResult::Lose
            },
            SelectionResult::Opponent(_) => if turn == PlayerType::Opponent {
                GameResult::Win
            } else {
                GameResult::Lose
            },
        }
    }

    /// The selection that leads to the outcome.
    pub fn selection(&self) -> (selection: &Selection)
        ensures
            *selection == self.spec_selection(),
    {
        match self {
            SelectionResult::Player(s) => s,
            SelectionResult::Draw(s) => s,
            SelectionResult::Opponent(s) => s,
        }
    }

    /// What the outcome means for the side `turn`.
    pub fn verdict(&self, turn: PlayerType) -> (verdict: GameResult)
        ensures
            verdict == self.spec_verdict(turn),
    {
        match self {
            SelectionResult::Draw(_) => GameResult::Draw,
            SelectionResult::Player(_) => if turn == PlayerType::Player {
                GameResult::Win
            } else {
                GameResult::Lose
            },
            SelectionResult::Opponent(_) => if turn == PlayerType::Opponent {
                GameResult::Win
            } else {
                GameResult::Lose
            },
        }
    }
}

/// The amounts from `from` up to, not including, `to`, each with the same
/// fury flag.
pub open spec fn spec_amounts(from: int, to: int, fury: bool) -> Seq<(u8, bool)> {
    Seq::new(
        if to > from {
            (to - from) as nat
        } else {
            0
        },
        |i: int| ((from + i) as u8, fury),
    )
}

/// The moves that stand for all that a side with `n` pillz can do: all of
/// them without fury, the whole pool first; then, for a pool of three or
/// more, all of them with fury, the most first.
pub open spec fn spec_split_shift_range(n: u8) -> Seq<(u8, bool)> {
    if n < 3 {
        seq![(n, false)] + spec_amounts(0, n as int, false)
    } else {
        seq![(n, false), ((n - 3) as u8, false)] + spec_amounts(0, n - 3, false) + seq![
            ((n - 2) as u8, false),
            ((n - 1) as u8, false),
            ((n - 3) as u8, true),
        ] + spec_amounts(0, n - 3, true)
    }
}

/// Every move that a side with `n` pillz can make: each amount up to `n`
/// without fury, then each amount up to `n - 3` with fury.
pub open spec fn spec_split_range(n: u8) -> Seq<(u8, bool)> {
    spec_amounts(0, n + 1, false) + spec_amounts(0, n - 2, true)
}

/// The moves offered to the side that moves in a statistical search: in
/// round 0 the whole pool, then every smaller amount, all without fury; in
/// later rounds those of `spec_split_shift_range`.
pub open spec fn spec_shift_false_range(n: u8, round: u8) -> Seq<(u8, bool)> {
    if round == 0 {
        seq![(n, false)] + spec_amounts(0, n as int, false)
    } else {
        spec_split_shift_range(n)
    }
}

/// Whether no move occurs twice in `moves`.
pub open spec fn spec_distinct_moves(moves: Seq<(u8, bool)>) -> bool {
    forall|i: int, j: int|
        0 <= i < j < moves.len() ==> (#[trigger] moves[i]).0 != (#[trigger] moves[j]).0
            || moves[i].1 != moves[j].1
}

/// The moves that stand for all that a side can do hold no move twice.
pub proof fn lemma_moves_distinct(n: u8)
    ensures
        spec_distinct_moves(spec_split_shift_range(n)),
{
    let moves = spec_split_shift_range(n);
    if n < 3 {
        assert forall|k: int| 0 <= k < moves.len() implies #[trigger] moves[k] == (if k == 0 {
            (n, false)
        } else {
            ((k - 1) as u8, false)
        }) by {}
    } else {
        let m = n - 3;
        assert(moves.len() == 2 * n - 1);
        assert forall|k: int| 0 <= k < moves.len() implies #[trigger] moves[k] == (if k == 0 {
            (n, false)
        } else if k == 1 {
            (m as u8, false)
        } else if k < 2 + m {
            ((k - 2) as u8, false)
        } else if k == 2 + m {
            ((n - 2) as u8, false)
        } else if k == 3 + m {
            ((n - 1) as u8, false)
        } else if k == 4 + m {
            (m as u8, true)
        } else {
            ((k - 5 - m) as u8, true)
        }) by {}
    }
}

/// Whether a side with `n` pillz can pay for every move of `moves`.
pub open spec fn spec_affordable(moves: Seq<(u8, bool)>, n: u8) -> bool {
    forall|k: int|
        0 <= k < moves.len() ==> (Selection {
            index: 0,
            pillz: (#[trigger] moves[k]).0,
            fury: moves[k].1,
        }).spec_cost() <= n
}

/// A side can pay for every move that the ranges offer it, and each of the
/// ranges for a search offers a move.
pub proof fn lemma_ranges_affordable(n: u8, round: u8)
    ensures
        spec_affordable(spec_split_shift_range(n), n),
        spec_affordable(spec_split_range(n), n),
        spec_affordable(spec_shift_false_range(n, round), n),
        spec_split_shift_range(n).len() > 0,
        spec_split_range(n).len() > 0,
        spec_shift_false_range(n, round).len() > 0,
{
}

fn push_amounts(moves: &mut Vec<(u8, bool)>, to: u8, fury: bool)
    ensures
        final(moves)@ == old(moves)@ + spec_amounts(0, to as int, fury),
{
    let mut i: u8 = 0;
    while i < to
        invariant
            i <= to,
            moves@ == old(moves)@ + spec_amounts(0, i as int, fury),
        decreases to - i,
    {
        moves.push((i, fury));
        assert(moves@ =~= old(moves)@ + spec_amounts(0, i as int + 1, fury));
        i += 1;
    }
}

/// The moves that stand for all that a side with `n` pillz can do.
pub fn split_shift_range(n: u8) -> (moves: Vec<(u8, bool)>)
    ensures
        moves@ == spec_split_shift_range(n),
        spec_affordable(moves@, n),
        moves.len() > 0,
{
    let mut moves: Vec<(u8, bool)> = Vec::new();
    moves.push((n, false));
    if n < 3 {
        assert(moves@ =~= seq![(n, false)]);
        push_amounts(&mut moves, n, false);
    } else {
        moves.push((n - 3, false));
        assert(moves@ =~= seq![(n, false), ((n - 3) as u8, false)]);
        push_amounts(&mut moves, n - 3, false);
        let ghost low = moves@;
        moves.push((n - 2, false));
        moves.push((n - 1, false));
        moves.push((n - 3, true));
        assert(moves@ =~= low + seq![
            ((n - 2) as u8, false),
            ((n - 1) as u8, false),
            ((n - 3) as u8, true),
        ]);
        push_amounts(&mut moves, n - 3, true);
    }
    moves
}

/// Every move that a side with `n` pillz can make.
pub fn split_range(n: u8) -> (moves: Vec<(u8, bool)>)
    ensures
        moves@ == spec_split_range(n),
        spec_affordable(moves@, n),
{
    let mut moves: Vec<(u8, bool)> = Vec::new();
    push_amounts(&mut moves, n, false);
    moves.push((n, false));
    assert(moves@ =~= spec_amounts(0, n + 1, false));
    if n >= 3 {
        push_amounts(&mut moves, n - 3, true);
        moves.push((n - 3, true));
    }
    assert(moves@ =~= spec_split_range(n));
    moves
}

/// The moves offered to the side that moves in a statistical search.
pub fn shift_false_range(n: u8, round: u8) -> (moves: Vec<(u8, bool)>)
    ensures
        moves@ == spec_shift_false_range(n, round),
        spec_affordable(moves@, n),
        moves.len() > 0,
{
    if round == 0 {
        let mut moves: Vec<(u8, bool)> = Vec::new();
        moves.push((n, false));
        assert(moves@ =~= seq![(n, false)]);
        push_amounts(&mut moves, n, false);
        moves
    } else {
        split_shift_range(n)
    }
}

/// A search over the moves of one side, as far as it has come: it has found
/// a move that wins, or it is still open and remembers the best it has seen.
pub enum Scan {
    Done(SelectionResult),
    Open(Option<SelectionResult>),
}

/// How many selections are pending.
pub open spec fn spec_pending(game: GameView) -> int {
    (if game.s1.is_some() {
        1int
    } else {
        0
    }) + (if game.s2.is_some() {
        1int
    } else {
        0
    })
}

/// How far a match is from its end at most: three for each round to come,
/// less one for each pending selection.
pub open spec fn spec_measure(game: GameView) -> nat {
    if game.round >= 4 {
        0
    } else {
        (3 * (4 - game.round) - spec_pending(game)) as nat
    }
}

/// The outcome in which the side `turn` wins with `selection`.
pub open spec fn spec_win(turn: PlayerType, selection: Selection) -> SelectionResult {
    if turn == PlayerType::Player {
        SelectionResult::Player(selection)
    } else {
        SelectionResult::Opponent(selection)
    }
}

/// The outcome in which the side `turn` loses with `selection`.
pub open spec fn spec_loss(turn: PlayerType, selection: Selection) -> SelectionResult {
    if turn == PlayerType::Player {
        SelectionResult::Opponent(selection)
    } else {
        SelectionResult::Player(selection)
    }
}

/// The outcome that a decided match stands for, with the selection of
/// nothing.
pub open spec fn spec_settled(status: GameStatus) -> SelectionResult {
    let nothing = Selection { index: 0, pillz: 0, fury: false };
    match status {
        GameStatus::Player => SelectionResult::Player(nothing),
        GameStatus::Opponent => SelectionResult::Opponent(nothing),
        _ => SelectionResult::Draw(nothing),
    }
}

/// A search after it has seen that `selection` ends the match at once with
/// `verdict` for the side that moves. A win ends the search. A draw is
/// remembered unless a draw is remembered already. A loss is remembered only
/// where nothing is.
pub open spec fn spec_absorb_final(
    acc: Option<SelectionResult>,
    verdict: GameResult,
    turn: PlayerType,
    selection: Selection,
) -> Scan {
    match verdict {
        GameResult::Win => Scan::Done(spec_win(turn, selection)),
        GameResult::Draw => Scan::Open(
            match acc {
                Some(SelectionResult::Draw(_)) => acc,
                _ => Some(SelectionResult::Draw(selection)),
            },
        ),
        GameResult::Lose => Scan::Open(
            if acc.is_none() {
                Some(spec_loss(turn, selection))
            } else {
                acc
            },
        ),
    }
}

/// A search after it has seen that the search of what follows `selection`
/// ends with `verdict` for the side that moves. A win ends the search. A draw
/// or a loss is remembered only where nothing is.
pub open spec fn spec_absorb_deeper(
    acc: Option<SelectionResult>,
    verdict: GameResult,
    turn: PlayerType,
    selection: Selection,
) -> Scan {
    match verdict {
        GameResult::Win => Scan::Done(spec_win(turn, selection)),
        GameResult::Draw => Scan::Open(
            if acc.is_none() {
                Some(SelectionResult::Draw(selection))
            } else {
                acc
            },
        ),
        GameResult::Lose => Scan::Open(
            if acc.is_none() {
                Some(spec_loss(turn, selection))
            } else {
                acc
            },
        ),
    }
}

/// What a decided match means for the side `turn`.
pub open spec fn spec_status_verdict(status: GameStatus, turn: PlayerType) -> GameResult {
    spec_settled(status).spec_verdict(turn)
}

/// What the side that moves gets from `selection`, and whether the selection
/// ends the match at once. Where it does not, what it gets is what the search
/// of the match after the selection finds.
pub open spec fn spec_try(game: GameView, catalog: Catalog, selection: Selection) -> (
    bool,
    GameResult,
)
    decreases spec_measure(game), 0nat, 0nat,
{
    let turn = game.spec_turn();
    let next = game.spec_select(selection, catalog);
    if game.spec_completes() && next.spec_status() != GameStatus::Playing {
        (true, spec_status_verdict(next.spec_status(), turn))
    } else if spec_measure(next) < spec_measure(game) {
        (false, spec_solve_first(next, catalog).spec_verdict(turn))
    } else {
        (false, GameResult::Draw)
    }
}

/// The search over the moves of `moves` from position `k` on, for the card at
/// `index`, in order.
pub open spec fn spec_scan_moves(
    game: GameView,
    catalog: Catalog,
    index: usize,
    moves: Seq<(u8, bool)>,
    k: int,
    acc: Option<SelectionResult>,
) -> Scan
    decreases spec_measure(game), 1nat, moves.len() - k,
{
    if k < 0 || k >= moves.len() {
        Scan::Open(acc)
    } else {
        let selection = Selection { index, pillz: moves[k].0, fury: moves[k].1 };
        let (ends, verdict) = spec_try(game, catalog, selection);
        let step = if ends {
            spec_absorb_final(acc, verdict, game.spec_turn(), selection)
        } else {
            spec_absorb_deeper(acc, verdict, game.spec_turn(), selection)
        };
        match step {
            Scan::Done(found) => Scan::Done(found),
            Scan::Open(seen) => spec_scan_moves(game, catalog, index, moves, k + 1, seen),
        }
    }
}

/// The search over the cards from position `index` on that the side that
/// moves has not played, in order, each with the moves of
/// `spec_split_shift_range` for the side's pool.
pub open spec fn spec_scan_cards(
    game: GameView,
    catalog: Catalog,
    index: int,
    acc: Option<SelectionResult>,
) -> Scan
    decreases spec_measure(game), 2nat, 4 - index,
{
    if index < 0 || index >= 4 {
        Scan::Open(acc)
    } else if game.spec_turn_hand().cards[index].played {
        spec_scan_cards(game, catalog, index + 1, acc)
    } else {
        match spec_scan_moves(
            game,
            catalog,
            index as usize,
            spec_split_shift_range(game.spec_turn_player().pillz),
            0,
            acc,
        ) {
            Scan::Done(found) => Scan::Done(found),
            Scan::Open(seen) => spec_scan_cards(game, catalog, index + 1, seen),
        }
    }
}

/// What the exact search finds for the side that moves.
///
/// A decided match gives its outcome, with the selection of nothing. In
/// another the side's unplayed cards are tried in order, each with the moves
/// of `spec_split_shift_range`, in order. The first move that wins is the
/// answer. Where none wins, the answer is the move that was remembered: the
/// first move seen, unless a later move ends the match at once in a draw,
/// which then takes the place of a remembered win of the other side.
pub open spec fn spec_solve_first(game: GameView, catalog: Catalog) -> SelectionResult
    decreases spec_measure(game), 3nat, 0nat,
{
    if game.spec_status() != GameStatus::Playing {
        spec_settled(game.spec_status())
    } else {
        match spec_scan_cards(game, catalog, 0, None) {
            Scan::Done(found) => found,
            Scan::Open(Some(seen)) => seen,
            Scan::Open(None) => spec_settled(GameStatus::Draw),
        }
    }
}

/// A selection that the side that moves may make brings the match nearer to
/// its end.
pub proof fn lemma_select_decreases(game: GameView, selection: Selection, catalog: Catalog)
    requires
        game.wf(catalog),
        game.spec_can_select(selection.index, selection.pillz, selection.fury),
    ensures
        spec_measure(game.spec_select(selection, catalog)) < spec_measure(game),
        game.round < 4,
{
    let hand = game.spec_turn_hand();
    let at = selection.index as int;
    let after = hand.with_card(at, crate::card::Card { played: true, ..hand.cards[at] });
    assert forall|i: int| 0 <= i < 4 implies (#[trigger] after.cards[i]).played == (
    hand.cards[i].played || i == at) by {}
    lemma_count_played(hand, after, at);
}

/// An open search that has absorbed a move remembers a move.
pub proof fn lemma_absorb_remembers(
    acc: Option<SelectionResult>,
    verdict: GameResult,
    turn: PlayerType,
    selection: Selection,
)
    ensures
        spec_absorb_final(acc, verdict, turn, selection) matches Scan::Open(seen) ==> seen.is_some(),
        spec_absorb_deeper(acc, verdict, turn, selection) matches Scan::Open(seen)
            ==> seen.is_some(),
{
}

/// The exact and the statistical search.
pub struct Solver {}

fn settled(status: GameStatus) -> (result: SelectionResult)
    ensures
        result == spec_settled(status),
{
    let nothing = Selection { index: 0, pillz: 0, fury: false };
    match status {
        GameStatus::Player => SelectionResult::Player(nothing),
        GameStatus::Opponent => SelectionResult::Opponent(nothing),
        _ => SelectionResult::Draw(nothing),
    }
}

fn win(turn: PlayerType, selection: Selection) -> (result: SelectionResult)
    ensures
        result == spec_win(turn, selection),
{
    if turn == PlayerType::Player {
        SelectionResult::Player(selection)
    } else {
        SelectionResult::Opponent(selection)
    }
}

fn loss(turn: PlayerType, selection: Selection) -> (result: SelectionResult)
    ensures
        result == spec_loss(turn, selection),
{
    if turn == PlayerType::Player {
        SelectionResult::Opponent(selection)
    } else {
        SelectionResult::Player(selection)
    }
}

fn absorb(
    acc: Option<SelectionResult>,
    ends: bool,
    verdict: GameResult,
    turn: PlayerType,
    selection: Selection,
) -> (step: Scan)
    ensures
        step == if ends {
            spec_absorb_final(acc, verdict, turn, selection)
        } else {
            spec_absorb_deeper(acc, verdict, turn, selection)
        },
{
    match verdict {
        GameResult::Win => Scan::Done(win(turn, selection)),
        GameResult::Draw => {
            let keep = match acc {
                Some(SelectionResult::Draw(_)) => true,
                Some(_) => !ends,
                None => false,
            };
            if keep {
                Scan::Open(acc)
            } else {
                Scan::Open(Some(SelectionResult::Draw(selection)))
            }
        },
        GameResult::Lose => {
            if acc.is_none() {
                Scan::Open(Some(loss(turn, selection)))
            } else {
                Scan::Open(acc)
            }
        },
    }
}

impl Solver {
    /// What the side that moves gets from `selection`, and whether the
    /// selection ends the match at once.
    fn try_move(game: &Game, catalog: &Catalog, selection: Selection) -> (outcome: (bool, GameResult))
        requires
            game@.wf(*catalog),
            game@.spec_can_select(selection.index, selection.pillz, selection.fury),
        ensures
            outcome == spec_try(game@, *catalog, selection),
        decreases spec_measure(game@), 0nat, 0nat,
    {
        let turn = game.get_turn();
        let mut next = game.clone();
        let battled = next.select(selection.index, selection.pillz, selection.fury, catalog);
        proof {
            lemma_select_decreases(game@, selection, *catalog);
        }
        let status = next.status();
        if battled && status != GameStatus::Playing {
            (true, settled(status).verdict(turn))
        } else {
            (false, Solver::solve_first(&next, catalog).verdict(turn))
        }
    }

    /// The search over the moves of `moves` for the card at `index`.
    fn scan_moves(
        game: &Game,
        catalog: &Catalog,
        index: usize,
        moves: &Vec<(u8, bool)>,
        acc: Option<SelectionResult>,
    ) -> (scan: Scan)
        requires
            game@.wf(*catalog),
            index < 4,
            !game@.spec_turn_hand().cards[index as int].played,
            spec_affordable(moves@, game@.spec_turn_player().pillz),
        ensures
            scan == spec_scan_moves(game@, *catalog, index, moves@, 0, acc),
            moves.len() > 0 ==> (scan matches Scan::Open(seen) ==> seen.is_some()),
        decreases spec_measure(game@), 1nat, moves.len(),
    {
        let turn = game.get_turn();
        let mut best = acc;
        let mut k: usize = 0;
        while k < moves.len()
            invariant
                k <= moves.len(),
                game@.wf(*catalog),
                index < 4,
                !game@.spec_turn_hand().cards[index as int].played,
                spec_affordable(moves@, game@.spec_turn_player().pillz),
                turn == game@.spec_turn(),
                spec_scan_moves(game@, *catalog, index, moves@, 0, acc) == spec_scan_moves(
                    game@,
                    *catalog,
                    index,
                    moves@,
                    k as int,
                    best,
                ),
                k > 0 ==> best.is_some(),
            decreases moves.len() - k,
        {
            let (pillz, fury) = moves[k];
            let selection = Selection { index, pillz, fury };
            let (ends, verdict) = Solver::try_move(game, catalog, selection);
            proof {
                lemma_absorb_remembers(best, verdict, turn, selection);
            }
            match absorb(best, ends, verdict, turn, selection) {
                Scan::Done(found) => {
                    return Scan::Done(found);
                },
                Scan::Open(seen) => {
                    best = seen;
                },
            }
            k += 1;
        }
        Scan::Open(best)
    }

    /// Searches the match to its end for the side that moves, and finds a
    /// selection with the outcome that it leads to: the first that wins,
    /// where one does.
    pub fn solve_first(game: &Game, catalog: &Catalog) -> (best: SelectionResult)
        requires
            game@.wf(*catalog),
        ensures
            best == spec_solve_first(game@, *catalog),
        decreases spec_measure(game@), 3nat, 0nat,
    {
        let status = game.status();
        if status != GameStatus::Playing {
            return settled(status);
        }
        let pool = game.get_turn_player().pillz;
        let mut acc: Option<SelectionResult> = None;
        let mut index: usize = 0;
        while index < 4
            invariant
                index <= 4,
                game@.wf(*catalog),
                game@.spec_status() == GameStatus::Playing,
                pool == game@.spec_turn_player().pillz,
                spec_scan_cards(game@, *catalog, 0, None) == spec_scan_cards(
                    game@,
                    *catalog,
                    index as int,
                    acc,
                ),
                forall|j: int|
                    0 <= j < index && !(#[trigger] game@.spec_turn_hand().cards[j]).played
                        ==> acc.is_some(),
            decreases 4 - index,
        {
            if !game.get_turn_hand().cards[index].played {
                let moves = split_shift_range(pool);
                match Solver::scan_moves(game, catalog, index, &moves, acc) {
                    Scan::Done(found) => {
                        return found;
                    },
                    Scan::Open(seen) => {
                        acc = seen;
                    },
                }
            }
            index += 1;
        }
        match acc {
            Some(seen) => seen,
            None => settled(GameStatus::Draw),
        }
    }
}

/// Whether the side that opens the round, and no other, has selected.
pub open spec fn spec_awaits_reply(game: GameView) -> bool {
    if game.round % 2 == game.flip {
        game.s1.is_some() && game.s2.is_none()
    } else {
        game.s2.is_some() && game.s1.is_none()
    }
}

/// The card that the side that opens the round has selected.
pub open spec fn spec_committed(game: GameView) -> usize {
    if game.s1.is_none() {
        game.s2.unwrap().index
    } else {
        game.s1.unwrap().index
    }
}

/// What the replying side `turn` gets where the side that opens the round
/// wagers `reply` on the card `committed` and the replying side answers with
/// `candidate`: what the match is decided as, or what the search for the side
/// that moves next finds.
#[verifier::opaque]
pub open spec fn spec_reply_verdict(
    base: GameView,
    catalog: Catalog,
    turn: PlayerType,
    committed: usize,
    reply: (u8, bool),
    candidate: Selection,
) -> GameResult {
    let after = base.spec_select(
        Selection { index: committed, pillz: reply.0, fury: reply.1 },
        catalog,
    ).spec_select(candidate, catalog);
    if after.spec_status() != GameStatus::Playing {
        spec_status_verdict(after.spec_status(), turn)
    } else {
        spec_solve_first(after, catalog).spec_verdict(turn)
    }
}

/// Whether one of the first `n` wagers of `replies` gives the replying side
/// `verdict`.
pub open spec fn spec_some_reply(
    base: GameView,
    catalog: Catalog,
    turn: PlayerType,
    committed: usize,
    replies: Seq<(u8, bool)>,
    n: int,
    candidate: Selection,
    verdict: GameResult,
) -> bool {
    exists|k: int|
        0 <= k < n && #[trigger] spec_reply_verdict(
            base,
            catalog,
            turn,
            committed,
            replies[k],
            candidate,
        ) == verdict
}

/// The worst that the replying side gets from `candidate` over the wagers of
/// `replies`: a loss where one of them gives a loss, else a draw where one of
/// them gives a draw, else a win.
pub open spec fn spec_worst(
    base: GameView,
    catalog: Catalog,
    turn: PlayerType,
    committed: usize,
    replies: Seq<(u8, bool)>,
    candidate: Selection,
) -> GameResult {
    if spec_some_reply(
        base,
        catalog,
        turn,
        committed,
        replies,
        replies.len() as int,
        candidate,
        GameResult::Lose,
    ) {
        GameResult::Lose
    } else if spec_some_reply(
        base,
        catalog,
        turn,
        committed,
        replies,
        replies.len() as int,
        candidate,
        GameResult::Draw,
    ) {
        GameResult::Draw
    } else {
        GameResult::Win
    }
}

/// A search after it has seen the worst that `selection` gives. A win ends
/// the search. A draw is remembered, in place of whatever was. A loss is
/// remembered only where nothing is.
pub open spec fn spec_absorb_worst(
    acc: Option<SelectionResult>,
    worst: GameResult,
    turn: PlayerType,
    selection: Selection,
) -> Scan {
    match worst {
        GameResult::Win => Scan::Done(spec_win(turn, selection)),
        GameResult::Draw => Scan::Open(Some(SelectionResult::Draw(selection))),
        GameResult::Lose => Scan::Open(
            if acc.is_none() {
                Some(spec_loss(turn, selection))
            } else {
                acc
            },
        ),
    }
}

/// The search of the replying side over the moves of `moves` from position
/// `k` on, for its card at `index`, in order.
pub open spec fn spec_scan_answers(
    base: GameView,
    catalog: Catalog,
    turn: PlayerType,
    committed: usize,
    replies: Seq<(u8, bool)>,
    index: usize,
    moves: Seq<(u8, bool)>,
    k: int,
    acc: Option<SelectionResult>,
) -> Scan
    decreases moves.len() - k,
{
    if k < 0 || k >= moves.len() {
        Scan::Open(acc)
    } else {
        let selection = Selection { index, pillz: moves[k].0, fury: moves[k].1 };
        let worst = spec_worst(base, catalog, turn, committed, replies, selection);
        match spec_absorb_worst(acc, worst, turn, selection) {
            Scan::Done(found) => Scan::Done(found),
            Scan::Open(seen) => spec_scan_answers(
                base,
                catalog,
                turn,
                committed,
                replies,
                index,
                moves,
                k + 1,
                seen,
            ),
        }
    }
}

/// The search of the replying side over its cards from position `index` on
/// that it has not played, in order.
pub open spec fn spec_scan_hand(
    base: GameView,
    catalog: Catalog,
    turn: PlayerType,
    committed: usize,
    replies: Seq<(u8, bool)>,
    moves: Seq<(u8, bool)>,
    index: int,
    acc: Option<SelectionResult>,
) -> Scan
    decreases 4 - index,
{
    if index < 0 || index >= 4 {
        Scan::Open(acc)
    } else if base.spec_turn_opponent_hand().cards[index].played {
        spec_scan_hand(base, catalog, turn, committed, replies, moves, index + 1, acc)
    } else {
        match spec_scan_answers(
            base,
            catalog,
            turn,
            committed,
            replies,
            index as usize,
            moves,
            0,
            acc,
        ) {
            Scan::Done(found) => Scan::Done(found),
            Scan::Open(seen) => spec_scan_hand(
                base,
                catalog,
                turn,
                committed,
                replies,
                moves,
                index + 1,
                seen,
            ),
        }
    }
}

/// What the exact search finds for the side that replies to a selection of
/// which it knows the card and not the wager.
///
/// Its unplayed cards are tried in order, each with the moves of
/// `spec_split_shift_range` for its pool, in order, each against every wager
/// of `spec_split_shift_range` for the pool of the side that has selected.
/// The first move that wins against every wager is the answer. Where there
/// is none, the answer is the last move that at worst draws; where there is
/// none either, the first move.
pub open spec fn spec_solve_second(game: GameView, catalog: Catalog) -> SelectionResult {
    let base = GameView { s1: None, s2: None, ..game };
    match spec_scan_hand(
        base,
        catalog,
        game.spec_turn(),
        spec_committed(game),
        spec_split_shift_range(game.spec_turn_opponent().pillz),
        spec_split_shift_range(game.spec_turn_player().pillz),
        0,
        None,
    ) {
        Scan::Done(found) => found,
        Scan::Open(Some(seen)) => seen,
        Scan::Open(None) => spec_settled(GameStatus::Draw),
    }
}

fn absorb_worst(
    acc: Option<SelectionResult>,
    worst: GameResult,
    turn: PlayerType,
    selection: Selection,
) -> (step: Scan)
    ensures
        step == spec_absorb_worst(acc, worst, turn, selection),
{
    match worst {
        GameResult::Win => Scan::Done(win(turn, selection)),
        GameResult::Draw => Scan::Open(Some(SelectionResult::Draw(selection))),
        GameResult::Lose => {
            if acc.is_none() {
                Scan::Open(Some(loss(turn, selection)))
            } else {
                Scan::Open(acc)
            }
        },
    }
}

impl Solver {
    /// What the replying side gets from `candidate` against the wager
    /// `reply` on the card `committed`.
    fn reply_verdict(
        base: &Game,
        catalog: &Catalog,
        turn: PlayerType,
        committed: usize,
        reply: (u8, bool),
        candidate: Selection,
    ) -> (verdict: GameResult)
        requires
            base@.wf(*catalog),
            base.s1.is_none(),
            base.s2.is_none(),
            base@.spec_can_select(committed, reply.0, reply.1),
            GameView::spec_legal(
                candidate,
                base@.spec_turn_opponent(),
                base@.spec_turn_opponent_hand(),
            ),
        ensures
            verdict == spec_reply_verdict(base@, *catalog, turn, committed, reply, candidate),
    {
        proof {
            reveal(spec_reply_verdict);
        }
        let mut after = base.clone();
        after.select(committed, reply.0, reply.1, catalog);
        after.select(candidate.index, candidate.pillz, candidate.fury, catalog);
        let status = after.status();
        if status != GameStatus::Playing {
            settled(status).verdict(turn)
        } else {
            Solver::solve_first(&after, catalog).verdict(turn)
        }
    }

    /// The worst that the replying side gets from `candidate` over the wagers
    /// of `replies`.
    fn worst(
        base: &Game,
        catalog: &Catalog,
        turn: PlayerType,
        committed: usize,
        replies: &Vec<(u8, bool)>,
        candidate: Selection,
    ) -> (worst: GameResult)
        requires
            base@.wf(*catalog),
            base.s1.is_none(),
            base.s2.is_none(),
            committed < 4,
            !base@.spec_turn_hand().cards[committed as int].played,
            spec_affordable(replies@, base@.spec_turn_player().pillz),
            GameView::spec_legal(
                candidate,
                base@.spec_turn_opponent(),
                base@.spec_turn_opponent_hand(),
            ),
        ensures
            worst == spec_worst(base@, *catalog, turn, committed, replies@, candidate),
    {
        let mut worst = GameResult::Win;
        let mut k: usize = 0;
        while k < replies.len()
            invariant
                k <= replies.len(),
                base@.wf(*catalog),
                base.s1.is_none(),
                base.s2.is_none(),
                committed < 4,
                !base@.spec_turn_hand().cards[committed as int].played,
                spec_affordable(replies@, base@.spec_turn_player().pillz),
                GameView::spec_legal(
                    candidate,
                    base@.spec_turn_opponent(),
                    base@.spec_turn_opponent_hand(),
                ),
                worst != GameResult::Lose,
                !spec_some_reply(
                    base@,
                    *catalog,
                    turn,
                    committed,
                    replies@,
                    k as int,
                    candidate,
                    GameResult::Lose,
                ),
                (worst == GameResult::Draw) == spec_some_reply(
                    base@,
                    *catalog,
                    turn,
                    committed,
                    replies@,
                    k as int,
                    candidate,
                    GameResult::Draw,
                ),
            decreases replies.len() - k,
        {
            let verdict = Solver::reply_verdict(base, catalog, turn, committed, replies[k], candidate);
            match verdict {
                GameResult::Lose => {
                    return GameResult::Lose;
                },
                GameResult::Draw => {
                    worst = GameResult::Draw;
                },
                GameResult::Win => {},
            }
            k += 1;
        }
        worst
    }

    /// The search of the replying side over the moves of `moves` for its card
    /// at `index`.
    fn scan_answers(
        base: &Game,
        catalog: &Catalog,
        turn: PlayerType,
        committed: usize,
        replies: &Vec<(u8, bool)>,
        index: usize,
        moves: &Vec<(u8, bool)>,
        acc: Option<SelectionResult>,
    ) -> (scan: Scan)
        requires
            base@.wf(*catalog),
            base.s1.is_none(),
            base.s2.is_none(),
            committed < 4,
            !base@.spec_turn_hand().cards[committed as int].played,
            spec_affordable(replies@, base@.spec_turn_player().pillz),
            index < 4,
            !base@.spec_turn_opponent_hand().cards[index as int].played,
            spec_affordable(moves@, base@.spec_turn_opponent().pillz),
        ensures
            scan == spec_scan_answers(
                base@,
                *catalog,
                turn,
                committed,
                replies@,
                index,
                moves@,
                0,
                acc,
            ),
    {
        let mut best = acc;
        let mut k: usize = 0;
        while k < moves.len()
            invariant
                k <= moves.len(),
                base@.wf(*catalog),
                base.s1.is_none(),
                base.s2.is_none(),
                committed < 4,
                !base@.spec_turn_hand().cards[committed as int].played,
                spec_affordable(replies@, base@.spec_turn_player().pillz),
                index < 4,
                !base@.spec_turn_opponent_hand().cards[index as int].played,
                spec_affordable(moves@, base@.spec_turn_opponent().pillz),
                spec_scan_answers(base@, *catalog, turn, committed, replies@, index, moves@, 0, acc)
                    == spec_scan_answers(
                    base@,
                    *catalog,
                    turn,
                    committed,
                    replies@,
                    index,
                    moves@,
                    k as int,
                    best,
                ),
            decreases moves.len() - k,
        {
            let (pillz, fury) = moves[k];
            let selection = Selection { index, pillz, fury };
            let worst = Solver::worst(base, catalog, turn, committed, replies, selection);
            match absorb_worst(best, worst, turn, selection) {
                Scan::Done(found) => {
                    return Scan::Done(found);
                },
                Scan::Open(seen) => {
                    best = seen;
                },
            }
            k += 1;
        }
        Scan::Open(best)
    }

    /// The search of the replying side over its unplayed cards.
    fn scan_hand(
        base: &Game,
        catalog: &Catalog,
        turn: PlayerType,
        committed: usize,
        replies: &Vec<(u8, bool)>,
        moves: &Vec<(u8, bool)>,
    ) -> (scan: Scan)
        requires
            base@.wf(*catalog),
            base.s1.is_none(),
            base.s2.is_none(),
            committed < 4,
            !base@.spec_turn_hand().cards[committed as int].played,
            spec_affordable(replies@, base@.spec_turn_player().pillz),
            spec_affordable(moves@, base@.spec_turn_opponent().pillz),
        ensures
            scan == spec_scan_hand(base@, *catalog, turn, committed, replies@, moves@, 0, None),
    {
        let mut acc: Option<SelectionResult> = None;
        let mut index: usize = 0;
        while index < 4
            invariant
                index <= 4,
                base@.wf(*catalog),
                base.s1.is_none(),
                base.s2.is_none(),
                committed < 4,
                !base@.spec_turn_hand().cards[committed as int].played,
                spec_affordable(replies@, base@.spec_turn_player().pillz),
                spec_affordable(moves@, base@.spec_turn_opponent().pillz),
                spec_scan_hand(base@, *catalog, turn, committed, replies@, moves@, 0, None)
                    == spec_scan_hand(
                    base@,
                    *catalog,
                    turn,
                    committed,
                    replies@,
                    moves@,
                    index as int,
                    acc,
                ),
            decreases 4 - index,
        {
            if !base.get_turn_opponent_hand().cards[index].played {
                match Solver::scan_answers(base, catalog, turn, committed, replies, index, moves, acc) {
                    Scan::Done(found) => {
                        return Scan::Done(found);
                    },
                    Scan::Open(seen) => {
                        acc = seen;
                    },
                }
            }
            index += 1;
        }
        Scan::Open(acc)
    }

    /// Searches the match to its end for the side that replies to a
    /// selection of which it knows the card and not the wager.
    pub fn solve_second(game: &Game, catalog: &Catalog) -> (best: SelectionResult)
        requires
            game@.wf(*catalog),
            spec_awaits_reply(game@),
        ensures
            best == spec_solve_second(game@, *catalog),
    {
        let turn = game.get_turn();
        let committed = match game.s1 {
            None => game.s2.unwrap().index,
            Some(s) => s.index,
        };
        let pillz1 = game.get_turn_player().pillz;
        let pillz2 = game.get_turn_opponent().pillz;
        let mut base = game.clone();
        base.clear_selection();
        let moves = split_shift_range(pillz1);
        let replies = split_shift_range(pillz2);
        assert(base@ == (GameView { s1: None, s2: None, ..game@ }));
        match Solver::scan_hand(&base, catalog, turn, committed, &replies, &moves) {
            Scan::Done(found) => found,
            Scan::Open(Some(seen)) => seen,
            Scan::Open(None) => settled(GameStatus::Draw),
        }
    }

    /// The exact search for the side that selects next: that of
    /// `solve_second` where the other side has selected, else that of
    /// `solve_first`.
    pub fn solve(game: &Game, catalog: &Catalog) -> (best: SelectionResult)
        requires
            game@.wf(*catalog),
            game.s1.is_none() != game.s2.is_none() ==> spec_awaits_reply(game@),
        ensures
            best == if game.s1.is_none() != game.s2.is_none() {
                spec_solve_second(game@, *catalog)
            } else {
                spec_solve_first(game@, *catalog)
            },
    {
        if game.s1.is_none() != game.s2.is_none() {
            Solver::solve_second(game, catalog)
        } else {
            Solver::solve_first(game, catalog)
        }
    }
}

/// The search over the cards passes over played cards.
pub proof fn lemma_scan_passes(
    game: GameView,
    catalog: Catalog,
    from: int,
    to: int,
    acc: Option<SelectionResult>,
)
    requires
        0 <= from <= to <= 4,
        forall|i: int| from <= i < to ==> (#[trigger] game.spec_turn_hand().cards[i]).played,
    ensures
        spec_scan_cards(game, catalog, from, acc) == spec_scan_cards(game, catalog, to, acc),
    decreases to - from,
{
    if from < to {
        assert(game.spec_turn_hand().cards[from].played);
        lemma_scan_passes(game, catalog, from + 1, to, acc);
    }
}

/// Where the side that moves has one unplayed card and no pillz, the search
/// finds the one selection that the side can make, with the outcome that
/// making it leads to: what the match is decided as where the selection ends
/// it, else what the search of the match after the selection finds.
pub proof fn lemma_single_move(game: GameView, catalog: Catalog, index: usize)
    requires
        game.wf(catalog),
        game.spec_status() == GameStatus::Playing,
        game.spec_turn_player().pillz == 0,
        index < 4,
        forall|i: int|
            0 <= i < 4 ==> (#[trigger] game.spec_turn_hand().cards[i]).played == (i != index),
    ensures
        spec_solve_first(game, catalog).spec_selection() == (Selection {
            index,
            pillz: 0,
            fury: false,
        }),
        spec_solve_first(game, catalog).spec_verdict(game.spec_turn()) == spec_try(
            game,
            catalog,
            Selection { index, pillz: 0, fury: false },
        ).1,
{
    let only = Selection { index, pillz: 0, fury: false };
    let turn = game.spec_turn();
    let moves = spec_split_shift_range(0);
    assert(moves =~= seq![(0u8, false)]);
    let (ends, verdict) = spec_try(game, catalog, only);
    let step = if ends {
        spec_absorb_final(None, verdict, turn, only)
    } else {
        spec_absorb_deeper(None, verdict, turn, only)
    };
    let scanned = spec_scan_moves(game, catalog, index, moves, 0, None);
    assert(scanned == match step {
        Scan::Done(found) => Scan::Done(found),
        Scan::Open(seen) => Scan::Open(seen),
    }) by {
        reveal_with_fuel(spec_scan_moves, 3);
        assert(moves.len() == 1);
        assert(moves[0] == (0u8, false));
        assert((Selection { index, pillz: moves[0].0, fury: moves[0].1 }) == only);
        match step {
            Scan::Done(found) => {},
            Scan::Open(seen) => {
                assert(spec_scan_moves(game, catalog, index, moves, 1, seen) == Scan::Open(seen));
            },
        }
    }
    let at = index as int;
    lemma_scan_passes(game, catalog, 0, at, None);
    assert(!game.spec_turn_hand().cards[at].played);
    assert(spec_scan_cards(game, catalog, at, None) == match scanned {
        Scan::Done(found) => Scan::Done(found),
        Scan::Open(seen) => spec_scan_cards(game, catalog, at + 1, seen),
    });
    match scanned {
        Scan::Done(found) => {},
        Scan::Open(seen) => {
            lemma_scan_passes(game, catalog, at + 1, 4, seen);
        },
    }
    lemma_absorb_remembers(None, verdict, turn, only);
}

} // verus!
