use vstd::prelude::*;
use crate::catalog::Catalog;
use crate::game::{lemma_count_played, Game, GameStatus, GameView, Selection};
use crate::solver::{
    lemma_moves_distinct, lemma_select_decreases, spec_affordable, spec_distinct_moves,
    spec_measure, spec_split_shift_range, split_shift_range,
};

verus! {

/// Every way in which a match can go on from a position: under each
/// selection either the outcome in which it ends the match or the ways in
/// which the match can go on after it.
#[derive(Debug)]
pub enum ResultsTree {
    PlayerWin,
    OpponentWin,
    Draw,
    Moves(Vec<(Selection, ResultsTree)>),
}

/// A tree of results as a value.
pub enum Outline {
    PlayerWin,
    OpponentWin,
    Draw,
    Moves(Seq<(Selection, Outline)>),
}

/// The first `n` entries of a tree's map as values.
pub open spec fn spec_outlines(entries: Seq<(Selection, ResultsTree)>, n: int) -> Seq<
    (Selection, Outline),
>
    decreases entries, n,
{
    if n <= 0 || n > entries.len() {
        Seq::empty()
    } else {
        spec_outlines(entries, n - 1).push((entries[n - 1].0, spec_outline(entries[n - 1].1)))
    }
}

/// A tree of results as a value.
pub open spec fn spec_outline(tree: ResultsTree) -> Outline
    decreases tree, 0int,
{
    match tree {
        ResultsTree::PlayerWin => Outline::PlayerWin,
        ResultsTree::OpponentWin => Outline::OpponentWin,
        ResultsTree::Draw => Outline::Draw,
        ResultsTree::Moves(entries) => Outline::Moves(spec_outlines(entries@, entries@.len() as int)),
    }
}

/// The entries of a map as values do not depend on what follows them.
pub proof fn lemma_outlines_prefix(
    entries: Seq<(Selection, ResultsTree)>,
    longer: Seq<(Selection, ResultsTree)>,
    n: int,
)
    requires
        0 <= n <= entries.len() <= longer.len(),
        forall|i: int| 0 <= i < entries.len() ==> entries[i] == longer[i],
    ensures
        spec_outlines(entries, n) == spec_outlines(longer, n),
    decreases n,
{
    if n > 0 {
        lemma_outlines_prefix(entries, longer, n - 1);
    }
}

/// The entries of a map with one more entry, as values.
pub proof fn lemma_outlines_push(entries: Seq<(Selection, ResultsTree)>, entry: (Selection, ResultsTree))
    ensures
        spec_outlines(entries.push(entry), entries.len() as int + 1) == spec_outlines(
            entries,
            entries.len() as int,
        ).push((entry.0, spec_outline(entry.1))),
{
    lemma_outlines_prefix(entries, entries.push(entry), entries.len() as int);
}

/// The outcome in which a decided match ends, as a tree without moves.
pub open spec fn spec_leaf(status: GameStatus) -> Outline {
    match status {
        GameStatus::Player => Outline::PlayerWin,
        GameStatus::Opponent => Outline::OpponentWin,
        _ => Outline::Draw,
    }
}

/// What stands under `selection` in the tree of a match: the outcome in
/// which the selection ends the match, or the tree of the match after it.
pub open spec fn spec_subtree(game: GameView, catalog: Catalog, selection: Selection) -> Outline
    decreases spec_measure(game), 0nat, 0nat,
{
    let next = game.spec_select(selection, catalog);
    if next.spec_status() != GameStatus::Playing {
        spec_leaf(next.spec_status())
    } else if spec_measure(next) < spec_measure(game) {
        Outline::Moves(spec_fill_tree(next, catalog))
    } else {
        Outline::Draw
    }
}

/// The entries for the first `n` moves of `moves` on the card `index`.
pub open spec fn spec_fill_moves(
    game: GameView,
    catalog: Catalog,
    index: usize,
    moves: Seq<(u8, bool)>,
    n: int,
) -> Seq<(Selection, Outline)>
    decreases spec_measure(game), 1nat, n,
{
    if n <= 0 {
        Seq::empty()
    } else {
        let selection = Selection { index, pillz: moves[n - 1].0, fury: moves[n - 1].1 };
        spec_fill_moves(game, catalog, index, moves, n - 1).push(
            (selection, spec_subtree(game, catalog, selection)),
        )
    }
}

/// The entries for the first `n` cards of the side that selects next, those
/// it has not played.
pub open spec fn spec_fill_cards(game: GameView, catalog: Catalog, n: int) -> Seq<(Selection, Outline)>
    decreases spec_measure(game), 2nat, n,
{
    if n <= 0 {
        Seq::empty()
    } else {
        let before = spec_fill_cards(game, catalog, n - 1);
        if game.spec_turn_hand().cards[n - 1].played {
            before
        } else {
            let moves = spec_split_shift_range(game.spec_turn_player().pillz);
            before + spec_fill_moves(game, catalog, (n - 1) as usize, moves, moves.len() as int)
        }
    }
}

/// The tree of a match: for every move of `spec_split_shift_range` on every
/// unplayed card of the side that selects next, in order, what stands under
/// it.
pub open spec fn spec_fill_tree(game: GameView, catalog: Catalog) -> Seq<(Selection, Outline)>
    decreases spec_measure(game), 3nat, 0nat,
{
    spec_fill_cards(game, catalog, 4)
}

/// What stands under the player's `s1` and the opponent's `s2` in the tree
/// of a match in which both select at once.
pub open spec fn spec_subtree_abab(
    game: GameView,
    catalog: Catalog,
    s1: Selection,
    s2: Selection,
) -> Outline
    decreases spec_measure(game), 0nat, 0nat,
{
    let next = game.spec_select_both(s1, s2, catalog);
    if next.spec_status() != GameStatus::Playing {
        spec_leaf(next.spec_status())
    } else if spec_measure(next) < spec_measure(game) {
        Outline::Moves(spec_fill_tree_abab(next, catalog))
    } else {
        Outline::Draw
    }
}

/// The entries for the first `n` moves of `moves` on the opponent's card
/// `i2`, under the player's `s1`.
pub open spec fn spec_fill_answers(
    game: GameView,
    catalog: Catalog,
    s1: Selection,
    i2: usize,
    moves: Seq<(u8, bool)>,
    n: int,
) -> Seq<(Selection, Outline)>
    decreases spec_measure(game), 1nat, n,
{
    if n <= 0 {
        Seq::empty()
    } else {
        let s2 = Selection { index: i2, pillz: moves[n - 1].0, fury: moves[n - 1].1 };
        spec_fill_answers(game, catalog, s1, i2, moves, n - 1).push(
            (s2, spec_subtree_abab(game, catalog, s1, s2)),
        )
    }
}

/// Whether the opponent's card `i2` is one that the tree follows: it was not
/// played and, where the opponent has selected, it is the selected one.
pub open spec fn spec_follows(game: GameView, i2: int) -> bool {
    !game.h2.cards[i2].played && (game.s2 matches Some(s) ==> s.index == i2)
}

/// The entries under the player's `s1` for the first `n` cards of the
/// opponent, those that the tree follows.
pub open spec fn spec_fill_replies(game: GameView, catalog: Catalog, s1: Selection, n: int) -> Seq<
    (Selection, Outline),
>
    decreases spec_measure(game), 2nat, n,
{
    if n <= 0 {
        Seq::empty()
    } else {
        let before = spec_fill_replies(game, catalog, s1, n - 1);
        if spec_follows(game, n - 1) {
            let moves = spec_split_shift_range(game.p2.pillz);
            before + spec_fill_answers(
                game,
                catalog,
                s1,
                (n - 1) as usize,
                moves,
                moves.len() as int,
            )
        } else {
            before
        }
    }
}

/// The entries for the first `n` moves of `moves` on the player's card `i1`.
pub open spec fn spec_fill_openings(
    game: GameView,
    catalog: Catalog,
    i1: usize,
    moves: Seq<(u8, bool)>,
    n: int,
) -> Seq<(Selection, Outline)>
    decreases spec_measure(game), 3nat, n,
{
    if n <= 0 {
        Seq::empty()
    } else {
        let s1 = Selection { index: i1, pillz: moves[n - 1].0, fury: moves[n - 1].1 };
        spec_fill_openings(game, catalog, i1, moves, n - 1).push(
            (s1, Outline::Moves(spec_fill_replies(game, catalog, s1, 4))),
        )
    }
}

/// The entries for the first `n` cards of the player, those not played.
pub open spec fn spec_fill_hands(game: GameView, catalog: Catalog, n: int) -> Seq<(Selection, Outline)>
    decreases spec_measure(game), 4nat, n,
{
    if n <= 0 {
        Seq::empty()
    } else {
        let before = spec_fill_hands(game, catalog, n - 1);
        if game.h1.cards[n - 1].played {
            before
        } else {
            let moves = spec_split_shift_range(game.p1.pillz);
            before + spec_fill_openings(game, catalog, (n - 1) as usize, moves, moves.len() as int)
        }
    }
}

/// The tree of a match in which the player and the opponent select at once,
/// round after round: under every move of the player, every move of the
/// opponent, and under that what follows.
pub open spec fn spec_fill_tree_abab(game: GameView, catalog: Catalog) -> Seq<(Selection, Outline)>
    decreases spec_measure(game), 5nat, 0nat,
{
    spec_fill_hands(game, catalog, 4)
}

impl Outline {
    /// The worst that a tree holds for the player: 2 for a win of the
    /// player, 1 for a draw, -2 for a win of the opponent; for moves the least
    /// of 1 and what stands under them.
    pub open spec fn spec_worst_score(self) -> int
        decreases self, 0int,
    {
        match self {
            Outline::PlayerWin => 2,
            Outline::OpponentWin => -2,
            Outline::Draw => 1,
            Outline::Moves(entries) => spec_least_score(entries, entries.len() as int),
        }
    }
}

/// The least of 1 and the worst scores under the first `n` entries.
pub open spec fn spec_least_score(entries: Seq<(Selection, Outline)>, n: int) -> int
    decreases entries, n,
{
    if n <= 0 || n > entries.len() {
        1
    } else {
        let before = spec_least_score(entries, n - 1);
        let here = entries[n - 1].1.spec_worst_score();
        if here < before {
            here
        } else {
            before
        }
    }
}

/// The worst score is one of -2, 1 and 2.
pub proof fn lemma_worst_score_range(outline: Outline)
    ensures
        -2 <= outline.spec_worst_score() <= 2,
    decreases outline, 0int,
{
    match outline {
        Outline::Moves(entries) => lemma_least_score_range(entries, entries.len() as int),
        _ => {},
    }
}

/// The least score is between -2 and 1.
pub proof fn lemma_least_score_range(entries: Seq<(Selection, Outline)>, n: int)
    ensures
        -2 <= spec_least_score(entries, n) <= 1,
    decreases entries, n,
{
    if 0 < n <= entries.len() {
        lemma_least_score_range(entries, n - 1);
        lemma_worst_score_range(entries[n - 1].1);
    }
}

impl ResultsTree {
    /// The worst that the tree holds for the player.
    pub fn worst_score(&self) -> (score: i8)
        ensures
            score == spec_outline(*self).spec_worst_score(),
            -2 <= score <= 2,
        decreases self,
    {
        proof {
            lemma_worst_score_range(spec_outline(*self));
        }
        match self {
            ResultsTree::PlayerWin => 2,
            ResultsTree::OpponentWin => -2,
            ResultsTree::Draw => 1,
            ResultsTree::Moves(entries) => {
                let mut least: i8 = 1;
                let mut n: usize = 0;
                while n < entries.len()
                    invariant
                        n <= entries.len(),
                        *self == ResultsTree::Moves(*entries),
                        least == spec_least_score(
                            spec_outlines(entries@, entries@.len() as int),
                            n as int,
                        ),
                    decreases entries.len() - n,
                {
                    proof {
                        lemma_outlines_at(entries@, entries@.len() as int, n as int);
                        let tree = *self;
                        assert(decreases_to!(tree => tree->Moves_0));
                        assert(decreases_to!(*entries => entries[n as int]));
                    }
                    let here = entries[n].1.worst_score();
                    if here < least {
                        least = here;
                    }
                    n += 1;
                }
                proof {
                    lemma_outlines_at(entries@, entries@.len() as int, 0);
                }
                least
            },
        }
    }
}

/// The entries of a map as values are as many as the entries, and each is
/// the entry of its place as a value.
pub proof fn lemma_outlines_at(entries: Seq<(Selection, ResultsTree)>, n: int, i: int)
    requires
        0 <= n <= entries.len(),
    ensures
        spec_outlines(entries, n).len() == n,
        0 <= i < n ==> spec_outlines(entries, n)[i] == (entries[i].0, spec_outline(entries[i].1)),
    decreases n,
{
    if n > 0 {
        lemma_outlines_at(entries, n - 1, i);
    }
}

/// The search that lays out every way in which a match can go on.
pub struct Solver2;

fn leaf(status: GameStatus) -> (tree: ResultsTree)
    ensures
        spec_outline(tree) == spec_leaf(status),
{
    match status {
        GameStatus::Player => ResultsTree::PlayerWin,
        GameStatus::Opponent => ResultsTree::OpponentWin,
        _ => ResultsTree::Draw,
    }
}

impl Solver2 {
    /// What stands under `selection` in the tree of a match.
    fn subtree(game: &Game, catalog: &Catalog, selection: Selection) -> (tree: ResultsTree)
        requires
            game@.wf(*catalog),
            game@.spec_can_select(selection.index, selection.pillz, selection.fury),
        ensures
            spec_outline(tree) == spec_subtree(game@, *catalog, selection),
        decreases spec_measure(game@), 0nat, 0nat,
    {
        let mut next = game.clone();
        next.select(selection.index, selection.pillz, selection.fury, catalog);
        proof {
            lemma_select_decreases(game@, selection, *catalog);
        }
        let status = next.status();
        if status != GameStatus::Playing {
            leaf(status)
        } else {
            ResultsTree::Moves(Solver2::fill_tree(&next, catalog))
        }
    }

    /// Lays out every way in which a match can go on from the side that
    /// selects next.
    pub fn fill_tree(game: &Game, catalog: &Catalog) -> (tree: Vec<(Selection, ResultsTree)>)
        requires
            game@.wf(*catalog),
        ensures
            spec_outlines(tree@, tree@.len() as int) == spec_fill_tree(game@, *catalog),
            Outline::Moves(spec_outlines(tree@, tree@.len() as int)).spec_distinct(),
        decreases spec_measure(game@), 3nat, 0nat,
    {
        let moves = split_shift_range(game.get_turn_player().pillz);
        let mut tree: Vec<(Selection, ResultsTree)> = Vec::new();
        let mut index: usize = 0;
        while index < 4
            invariant
                index <= 4,
                game@.wf(*catalog),
                moves@ == spec_split_shift_range(game@.spec_turn_player().pillz),
                spec_affordable(moves@, game@.spec_turn_player().pillz),
                spec_outlines(tree@, tree@.len() as int) == spec_fill_cards(
                    game@,
                    *catalog,
                    index as int,
                ),
            decreases 4 - index,
        {
            if !game.get_turn_hand().cards[index].played {
                let ghost before = spec_outlines(tree@, tree@.len() as int);
                let mut k: usize = 0;
                while k < moves.len()
                    invariant
                        k <= moves.len(),
                        index < 4,
                        game@.wf(*catalog),
                        !game@.spec_turn_hand().cards[index as int].played,
                        spec_affordable(moves@, game@.spec_turn_player().pillz),
                        spec_outlines(tree@, tree@.len() as int) == before + spec_fill_moves(
                            game@,
                            *catalog,
                            index,
                            moves@,
                            k as int,
                        ),
                    decreases moves.len() - k,
                {
                    let (pillz, fury) = moves[k];
                    let selection = Selection { index, pillz, fury };
                    let under = Solver2::subtree(game, catalog, selection);
                    proof {
                        lemma_outlines_push(tree@, (selection, under));
                    }
                    tree.push((selection, under));
                    assert(spec_outlines(tree@, tree@.len() as int) =~= before + spec_fill_moves(
                        game@,
                        *catalog,
                        index,
                        moves@,
                        k as int + 1,
                    ));
                    k += 1;
                }
            }
            index += 1;
        }
        proof {
            lemma_tree_distinct(game@, *catalog);
        }
        tree
    }
}

impl Outline {
    /// Whether no map of the tree holds a selection twice.
    pub open spec fn spec_distinct(self) -> bool
        decreases self,
    {
        self matches Outline::Moves(entries) ==> {
            &&& forall|i: int, j: int|
                0 <= i < j < entries.len() ==> (#[trigger] entries[i]).0 != (
                #[trigger] entries[j]).0
            &&& forall|i: int|
                0 <= i < entries.len() ==> (#[trigger] entries[i]).1.spec_distinct()
        }
    }
}

/// The entries for the moves on one card: one for each move, in order, with
/// what stands under it.
pub proof fn lemma_fill_moves_at(
    game: GameView,
    catalog: Catalog,
    index: usize,
    moves: Seq<(u8, bool)>,
    n: int,
)
    requires
        0 <= n <= moves.len(),
    ensures
        spec_fill_moves(game, catalog, index, moves, n).len() == n,
        forall|k: int|
            0 <= k < n ==> (#[trigger] spec_fill_moves(game, catalog, index, moves, n)[k]) == ({
                let selection = Selection { index, pillz: moves[k].0, fury: moves[k].1 };
                (selection, spec_subtree(game, catalog, selection))
            }),
    decreases n,
{
    if n > 0 {
        lemma_fill_moves_at(game, catalog, index, moves, n - 1);
    }
}

/// What stands under a selection in the tree of a match holds no selection
/// twice in any of its maps.
pub proof fn lemma_subtree_distinct(game: GameView, catalog: Catalog, selection: Selection)
    ensures
        spec_subtree(game, catalog, selection).spec_distinct(),
    decreases spec_measure(game), 0nat, 0nat,
{
    let next = game.spec_select(selection, catalog);
    if next.spec_status() == GameStatus::Playing && spec_measure(next) < spec_measure(game) {
        lemma_tree_distinct(next, catalog);
    }
}

/// The entries for the first `n` cards hold no selection twice in any of
/// their maps, and only selections of those cards.
pub proof fn lemma_cards_distinct(game: GameView, catalog: Catalog, n: int)
    requires
        0 <= n <= 4,
    ensures
        Outline::Moves(spec_fill_cards(game, catalog, n)).spec_distinct(),
        forall|k: int|
            0 <= k < spec_fill_cards(game, catalog, n).len() ==> (#[trigger] spec_fill_cards(
                game,
                catalog,
                n,
            )[k]).0.index < n,
    decreases spec_measure(game), 2nat, n,
{
    if n > 0 {
        lemma_cards_distinct(game, catalog, n - 1);
        if !game.spec_turn_hand().cards[n - 1].played {
            let before = spec_fill_cards(game, catalog, n - 1);
            let moves = spec_split_shift_range(game.spec_turn_player().pillz);
            let index = (n - 1) as usize;
            let here = spec_fill_moves(game, catalog, index, moves, moves.len() as int);
            let entries = before + here;
            lemma_moves_distinct(game.spec_turn_player().pillz);
            lemma_fill_moves_at(game, catalog, index, moves, moves.len() as int);
            assert forall|k: int| 0 <= k < here.len() implies (#[trigger] here[k]).1.spec_distinct() by {
                lemma_subtree_distinct(game, catalog, here[k].0);
            }
            assert forall|k: int| 0 <= k < entries.len() implies (#[trigger] entries[k]) == (if k
                < before.len() {
                before[k]
            } else {
                here[k - before.len()]
            }) by {}
            let seen = Outline::Moves(before);
            assert(seen is Moves && seen->Moves_0 == before && seen.spec_distinct());
            assert forall|i: int, j: int| 0 <= i < j < entries.len() implies (#[trigger] entries[i]).0
                != (#[trigger] entries[j]).0 by {
                if j < before.len() {
                    assert(before[i].0 != before[j].0);
                } else if i < before.len() {
                    assert(before[i].0.index < n - 1);
                    assert(here[j - before.len()].0.index == index);
                } else {
                    let a = i - before.len();
                    let b = j - before.len();
                    assert(moves[a].0 != moves[b].0 || moves[a].1 != moves[b].1);
                    assert(here[a].0.pillz == moves[a].0 && here[a].0.fury == moves[a].1);
                    assert(here[b].0.pillz == moves[b].0 && here[b].0.fury == moves[b].1);
                }
            }
            assert forall|k: int| 0 <= k < entries.len() implies (#[trigger] entries[k]).1.spec_distinct() by {
                if k >= before.len() {
                    assert(here[k - before.len()].1.spec_distinct());
                } else {
                    assert(before[k].1.spec_distinct());
                }
            }
        }
    }
}

/// The tree of a match holds no selection twice in any of its maps.
pub proof fn lemma_tree_distinct(game: GameView, catalog: Catalog)
    ensures
        Outline::Moves(spec_fill_tree(game, catalog)).spec_distinct(),
    decreases spec_measure(game), 3nat, 0nat,
{
    lemma_cards_distinct(game, catalog, 4);
}

/// The entries for the answers on one card: one for each move, in order,
/// with what stands under it.
pub proof fn lemma_fill_answers_at(
    game: GameView,
    catalog: Catalog,
    s1: Selection,
    i2: usize,
    moves: Seq<(u8, bool)>,
    n: int,
)
    requires
        0 <= n <= moves.len(),
    ensures
        spec_fill_answers(game, catalog, s1, i2, moves, n).len() == n,
        forall|k: int|
            0 <= k < n ==> (#[trigger] spec_fill_answers(game, catalog, s1, i2, moves, n)[k]) == ({
                let s2 = Selection { index: i2, pillz: moves[k].0, fury: moves[k].1 };
                (s2, spec_subtree_abab(game, catalog, s1, s2))
            }),
    decreases n,
{
    if n > 0 {
        lemma_fill_answers_at(game, catalog, s1, i2, moves, n - 1);
    }
}

/// The entries for the openings on one card: one for each move, in order,
/// with the answers under it.
pub proof fn lemma_fill_openings_at(
    game: GameView,
    catalog: Catalog,
    i1: usize,
    moves: Seq<(u8, bool)>,
    n: int,
)
    requires
        0 <= n <= moves.len(),
    ensures
        spec_fill_openings(game, catalog, i1, moves, n).len() == n,
        forall|k: int|
            0 <= k < n ==> (#[trigger] spec_fill_openings(game, catalog, i1, moves, n)[k]) == ({
                let s1 = Selection { index: i1, pillz: moves[k].0, fury: moves[k].1 };
                (s1, Outline::Moves(spec_fill_replies(game, catalog, s1, 4)))
            }),
    decreases n,
{
    if n > 0 {
        lemma_fill_openings_at(game, catalog, i1, moves, n - 1);
    }
}

/// What stands under a pair of selections in the tree of a match in which
/// both select at once holds no selection twice in any of its maps.
pub proof fn lemma_subtree_abab_distinct(
    game: GameView,
    catalog: Catalog,
    s1: Selection,
    s2: Selection,
)
    ensures
        spec_subtree_abab(game, catalog, s1, s2).spec_distinct(),
    decreases spec_measure(game), 0nat, 0nat,
{
    let next = game.spec_select_both(s1, s2, catalog);
    if next.spec_status() == GameStatus::Playing && spec_measure(next) < spec_measure(game) {
        lemma_tree_abab_distinct(next, catalog);
    }
}

/// The answers on the first `n` cards of the opponent hold no selection
/// twice in any of their maps, and only selections of those cards.
pub proof fn lemma_replies_distinct(game: GameView, catalog: Catalog, s1: Selection, n: int)
    requires
        0 <= n <= 4,
    ensures
        Outline::Moves(spec_fill_replies(game, catalog, s1, n)).spec_distinct(),
        forall|k: int|
            0 <= k < spec_fill_replies(game, catalog, s1, n).len() ==> (#[trigger] spec_fill_replies(
                game,
                catalog,
                s1,
                n,
            )[k]).0.index < n,
    decreases spec_measure(game), 2nat, n,
{
    if n > 0 {
        lemma_replies_distinct(game, catalog, s1, n - 1);
        if spec_follows(game, n - 1) {
            let before = spec_fill_replies(game, catalog, s1, n - 1);
            let moves = spec_split_shift_range(game.p2.pillz);
            let index = (n - 1) as usize;
            let here = spec_fill_answers(game, catalog, s1, index, moves, moves.len() as int);
            let entries = before + here;
            lemma_moves_distinct(game.p2.pillz);
            lemma_fill_answers_at(game, catalog, s1, index, moves, moves.len() as int);
            assert forall|k: int| 0 <= k < here.len() implies (#[trigger] here[k]).1.spec_distinct() by {
                lemma_subtree_abab_distinct(game, catalog, s1, here[k].0);
            }
            assert forall|k: int| 0 <= k < entries.len() implies (#[trigger] entries[k]) == (if k
                < before.len() {
                before[k]
            } else {
                here[k - before.len()]
            }) by {}
            let seen = Outline::Moves(before);
            assert(seen is Moves && seen->Moves_0 == before && seen.spec_distinct());
            assert forall|i: int, j: int| 0 <= i < j < entries.len() implies (#[trigger] entries[i]).0
                != (#[trigger] entries[j]).0 by {
                if j < before.len() {
                    assert(before[i].0 != before[j].0);
                } else if i < before.len() {
                    assert(before[i].0.index < n - 1);
                    assert(here[j - before.len()].0.index == index);
                } else {
                    let a = i - before.len();
                    let b = j - before.len();
                    assert(moves[a].0 != moves[b].0 || moves[a].1 != moves[b].1);
                    assert(here[a].0.pillz == moves[a].0 && here[a].0.fury == moves[a].1);
                    assert(here[b].0.pillz == moves[b].0 && here[b].0.fury == moves[b].1);
                }
            }
            assert forall|k: int| 0 <= k < entries.len() implies (#[trigger] entries[k]).1.spec_distinct() by {
                if k >= before.len() {
                    assert(here[k - before.len()].1.spec_distinct());
                } else {
                    assert(before[k].1.spec_distinct());
                }
            }
        }
    }
}

/// The entries for the first `n` cards of the player hold no selection twice
/// in any of their maps, and only selections of those cards.
pub proof fn lemma_hands_distinct(game: GameView, catalog: Catalog, n: int)
    requires
        0 <= n <= 4,
    ensures
        Outline::Moves(spec_fill_hands(game, catalog, n)).spec_distinct(),
        forall|k: int|
            0 <= k < spec_fill_hands(game, catalog, n).len() ==> (#[trigger] spec_fill_hands(
                game,
                catalog,
                n,
            )[k]).0.index < n,
    decreases spec_measure(game), 4nat, n,
{
    if n > 0 {
        lemma_hands_distinct(game, catalog, n - 1);
        if !game.h1.cards[n - 1].played {
            let before = spec_fill_hands(game, catalog, n - 1);
            let moves = spec_split_shift_range(game.p1.pillz);
            let index = (n - 1) as usize;
            let here = spec_fill_openings(game, catalog, index, moves, moves.len() as int);
            let entries = before + here;
            lemma_moves_distinct(game.p1.pillz);
            lemma_fill_openings_at(game, catalog, index, moves, moves.len() as int);
            assert forall|k: int| 0 <= k < here.len() implies (#[trigger] here[k]).1.spec_distinct() by {
                lemma_replies_distinct(game, catalog, here[k].0, 4);
            }
            assert forall|k: int| 0 <= k < entries.len() implies (#[trigger] entries[k]) == (if k
                < before.len() {
                before[k]
            } else {
                here[k - before.len()]
            }) by {}
            let seen = Outline::Moves(before);
            assert(seen is Moves && seen->Moves_0 == before && seen.spec_distinct());
            assert forall|i: int, j: int| 0 <= i < j < entries.len() implies (#[trigger] entries[i]).0
                != (#[trigger] entries[j]).0 by {
                if j < before.len() {
                    assert(before[i].0 != before[j].0);
                } else if i < before.len() {
                    assert(before[i].0.index < n - 1);
                    assert(here[j - before.len()].0.index == index);
                } else {
                    let a = i - before.len();
                    let b = j - before.len();
                    assert(moves[a].0 != moves[b].0 || moves[a].1 != moves[b].1);
                    assert(here[a].0.pillz == moves[a].0 && here[a].0.fury == moves[a].1);
                    assert(here[b].0.pillz == moves[b].0 && here[b].0.fury == moves[b].1);
                }
            }
            assert forall|k: int| 0 <= k < entries.len() implies (#[trigger] entries[k]).1.spec_distinct() by {
                if k >= before.len() {
                    assert(here[k - before.len()].1.spec_distinct());
                } else {
                    assert(before[k].1.spec_distinct());
                }
            }
        }
    }
}

/// The tree of a match in which both select at once holds no selection twice
/// in any of its maps.
pub proof fn lemma_tree_abab_distinct(game: GameView, catalog: Catalog)
    ensures
        Outline::Moves(spec_fill_tree_abab(game, catalog)).spec_distinct(),
    decreases spec_measure(game), 5nat, 0nat,
{
    lemma_hands_distinct(game, catalog, 4);
}

/// Resolving a round brings a match nearer to its end.
pub proof fn lemma_select_both_decreases(
    game: GameView,
    s1: Selection,
    s2: Selection,
    catalog: Catalog,
)
    requires
        game.wf(catalog),
        GameView::spec_legal(s1, game.p1, game.h1),
    ensures
        spec_measure(game.spec_select_both(s1, s2, catalog)) < spec_measure(game),
{
    let at = s1.index as int;
    let after = game.h1.with_card(at, crate::card::Card { played: true, ..game.h1.cards[at] });
    assert forall|i: int| 0 <= i < 4 implies (#[trigger] after.cards[i]).played == (
    game.h1.cards[i].played || i == at) by {}
    lemma_count_played(game.h1, after, at);
}

impl Solver2 {
    /// What stands under the player's `s1` and the opponent's `s2`.
    fn subtree_abab(game: &Game, catalog: &Catalog, s1: Selection, s2: Selection) -> (tree:
        ResultsTree)
        requires
            game@.wf(*catalog),
            GameView::spec_legal(s1, game.p1, game.h1),
            GameView::spec_legal(s2, game.p2, game.h2),
        ensures
            spec_outline(tree) == spec_subtree_abab(game@, *catalog, s1, s2),
        decreases spec_measure(game@), 0nat, 0nat,
    {
        let mut next = game.clone();
        next.select_both(s1, s2, catalog);
        proof {
            lemma_select_both_decreases(game@, s1, s2, *catalog);
        }
        let status = next.status();
        if status != GameStatus::Playing {
            leaf(status)
        } else {
            ResultsTree::Moves(Solver2::fill_tree_abab(&next, catalog))
        }
    }

    /// The entries under the player's `s1`: every move of the opponent that
    /// the tree follows, with what stands under it.
    fn fill_replies(game: &Game, catalog: &Catalog, s1: Selection, moves: &Vec<(u8, bool)>) -> (tree:
        Vec<(Selection, ResultsTree)>)
        requires
            game@.wf(*catalog),
            GameView::spec_legal(s1, game.p1, game.h1),
            moves@ == spec_split_shift_range(game.p2.pillz),
            spec_affordable(moves@, game.p2.pillz),
        ensures
            spec_outlines(tree@, tree@.len() as int) == spec_fill_replies(game@, *catalog, s1, 4),
        decreases spec_measure(game@), 2nat, 4nat,
    {
        let mut tree: Vec<(Selection, ResultsTree)> = Vec::new();
        let mut i2: usize = 0;
        while i2 < 4
            invariant
                i2 <= 4,
                game@.wf(*catalog),
                GameView::spec_legal(s1, game.p1, game.h1),
                moves@ == spec_split_shift_range(game.p2.pillz),
                spec_affordable(moves@, game.p2.pillz),
                spec_outlines(tree@, tree@.len() as int) == spec_fill_replies(
                    game@,
                    *catalog,
                    s1,
                    i2 as int,
                ),
            decreases 4 - i2,
        {
            let chosen = match game.s2 {
                Some(s) => s.index == i2,
                None => true,
            };
            if chosen && !game.h2.cards[i2].played {
                let ghost before = spec_outlines(tree@, tree@.len() as int);
                let mut k: usize = 0;
                while k < moves.len()
                    invariant
                        k <= moves.len(),
                        i2 < 4,
                        game@.wf(*catalog),
                        GameView::spec_legal(s1, game.p1, game.h1),
                        !game.h2.cards[i2 as int].played,
                        spec_affordable(moves@, game.p2.pillz),
                        spec_outlines(tree@, tree@.len() as int) == before + spec_fill_answers(
                            game@,
                            *catalog,
                            s1,
                            i2,
                            moves@,
                            k as int,
                        ),
                    decreases moves.len() - k,
                {
                    let (pillz, fury) = moves[k];
                    let s2 = Selection { index: i2, pillz, fury };
                    let under = Solver2::subtree_abab(game, catalog, s1, s2);
                    proof {
                        lemma_outlines_push(tree@, (s2, under));
                    }
                    tree.push((s2, under));
                    assert(spec_outlines(tree@, tree@.len() as int) =~= before + spec_fill_answers(
                        game@,
                        *catalog,
                        s1,
                        i2,
                        moves@,
                        k as int + 1,
                    ));
                    k += 1;
                }
            }
            i2 += 1;
        }
        tree
    }

    /// Lays out every way in which a match can go on where the player and
    /// the opponent select at once, round after round. Where the opponent has
    /// selected, only the selected card is followed in this round.
    pub fn fill_tree_abab(game: &Game, catalog: &Catalog) -> (tree: Vec<(Selection, ResultsTree)>)
        requires
            game@.wf(*catalog),
        ensures
            spec_outlines(tree@, tree@.len() as int) == spec_fill_tree_abab(game@, *catalog),
            Outline::Moves(spec_outlines(tree@, tree@.len() as int)).spec_distinct(),
        decreases spec_measure(game@), 5nat, 0nat,
    {
        let moves1 = split_shift_range(game.p1.pillz);
        let moves2 = split_shift_range(game.p2.pillz);
        let mut tree: Vec<(Selection, ResultsTree)> = Vec::new();
        let mut i1: usize = 0;
        while i1 < 4
            invariant
                i1 <= 4,
                game@.wf(*catalog),
                moves1@ == spec_split_shift_range(game.p1.pillz),
                spec_affordable(moves1@, game.p1.pillz),
                moves2@ == spec_split_shift_range(game.p2.pillz),
                spec_affordable(moves2@, game.p2.pillz),
                spec_outlines(tree@, tree@.len() as int) == spec_fill_hands(
                    game@,
                    *catalog,
                    i1 as int,
                ),
            decreases 4 - i1,
        {
            if !game.h1.cards[i1].played {
                let ghost before = spec_outlines(tree@, tree@.len() as int);
                let mut k: usize = 0;
                while k < moves1.len()
                    invariant
                        k <= moves1.len(),
                        i1 < 4,
                        game@.wf(*catalog),
                        !game.h1.cards[i1 as int].played,
                        spec_affordable(moves1@, game.p1.pillz),
                        moves2@ == spec_split_shift_range(game.p2.pillz),
                        spec_affordable(moves2@, game.p2.pillz),
                        spec_outlines(tree@, tree@.len() as int) == before + spec_fill_openings(
                            game@,
                            *catalog,
                            i1,
                            moves1@,
                            k as int,
                        ),
                    decreases moves1.len() - k,
                {
                    let (pillz, fury) = moves1[k];
                    let s1 = Selection { index: i1, pillz, fury };
                    let under = ResultsTree::Moves(Solver2::fill_replies(game, catalog, s1, &moves2));
                    proof {
                        lemma_outlines_push(tree@, (s1, under));
                    }
                    tree.push((s1, under));
                    assert(spec_outlines(tree@, tree@.len() as int) =~= before + spec_fill_openings(
                        game@,
                        *catalog,
                        i1,
                        moves1@,
                        k as int + 1,
                    ));
                    k += 1;
                }
            }
            i1 += 1;
        }
        proof {
            lemma_tree_abab_distinct(game@, *catalog);
        }
        tree
    }
}

} // verus!
