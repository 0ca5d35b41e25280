//! Counting the move sequences of a given length, to test and to time the move
//! generator.

use crate::coord::Coord;
use crate::game::{Game, GameMove};
use crate::generator::lemma_generated_are_legal;
use crate::reversal::{lemma_apply_wf, lemma_undo_restores};
use crate::rules::GameView;
use vstd::prelude::*;

verus! {

/// The number of move sequences of the given length that the generator leads
/// through from a position; for length zero, as for length one, the number
/// of moves proposed in the position.
pub open spec fn leaves(g: GameView, depth: nat) -> nat
    decreases depth, 0nat,
{
    if depth <= 1 {
        g.generated().len()
    } else {
        below(g, g.generated(), (depth - 1) as nat)
    }
}

/// The sum, over the given moves, of the `leaves` of the position after the move.
pub open spec fn below(g: GameView, moves: Seq<GameMove<Coord>>, depth: nat) -> nat
    decreases depth, moves.len() + 1,
{
    if moves.len() == 0 {
        0
    } else {
        below(g, moves.drop_last(), depth) + leaves(g.apply(moves.last()), depth)
    }
}

/// The sum over the first moves is the sum over all of them without the rest.
pub proof fn lemma_below_prefix(g: GameView, moves: Seq<GameMove<Coord>>, depth: nat, i: int)
    requires
        0 <= i <= moves.len(),
    ensures
        below(g, moves.take(i), depth) <= below(g, moves, depth),
        i < moves.len() ==> below(g, moves.take(i + 1), depth) == below(g, moves.take(i), depth)
            + leaves(g.apply(moves[i]), depth),
    decreases moves.len() - i,
{
    if i < moves.len() {
        assert(moves.take(i + 1).drop_last() =~= moves.take(i));
        lemma_below_prefix(g, moves, depth, i + 1);
    } else {
        assert(moves.take(i) =~= moves);
    }
}

/// What a count that may be too great for the machine's word stands for:
/// the number counted, or that it is too great.
pub open spec fn counted(count: Option<usize>, n: nat) -> bool {
    match count {
        Some(c) => c == n,
        None => n > usize::MAX,
    }
}

/// Counts by applying and taking back moves on the one game, which is left
/// as it was found. Tells when the count does not fit the machine's word.
pub fn checked_perft(game: &mut Game, depth: usize) -> (count: Option<usize>)
    requires
        old(game).wf(),
        depth >= 1,
    ensures
        counted(count, leaves(old(game)@, depth as nat)),
        final(game)@ == old(game)@,
        final(game).wf(),
    decreases depth, 0nat,
{
    let moves = game.generate_moves();
    if depth == 1 {
        Some(moves.len())
    } else {
        explore(game, &moves, depth - 1)
    }
}

/// What `checked_perft` counts after the move, which is applied before and
/// taken back afterwards.
fn visit(game: &mut Game, m: &GameMove<Coord>, depth: usize) -> (count: Option<usize>)
    requires
        old(game).wf(),
        old(game)@.legal(*m),
        depth >= 1,
    ensures
        counted(count, leaves(old(game)@.apply(*m), depth as nat)),
        final(game)@ == old(game)@,
        final(game).wf(),
    decreases depth, 1nat,
{
    proof {
        lemma_undo_restores(game@, *m);
    }
    let fight_result = game.apply_move_unchecked(m);
    let count = checked_perft(game, depth);
    game.undo_move(m, fight_result);
    count
}

/// The sum of what `checked_perft` counts after each of the moves, which
/// are those that the generator proposes.
fn explore(game: &mut Game, moves: &Vec<GameMove<Coord>>, depth: usize) -> (count: Option<usize>)
    requires
        old(game).wf(),
        depth >= 1,
        moves@ == old(game)@.generated(),
    ensures
        counted(count, below(old(game)@, moves@, depth as nat)),
        final(game)@ == old(game)@,
        final(game).wf(),
    decreases depth, 2nat,
{
    let ghost g = game@;
    let ghost d = depth as nat;
    let mut result: usize = 0;
    let n = moves.len();
    let mut i: usize = 0;
    assert(moves@.take(0) =~= Seq::<GameMove<Coord>>::empty());
    while i < n
        invariant
            n == moves.len(),
            i <= n,
            depth >= 1,
            d == depth,
            g == old(game)@,
            game@ == g,
            game.wf(),
            moves@ == g.generated(),
            result == below(g, moves@.take(i as int), d),
        decreases n - i,
    {
        proof {
            assert(moves@.contains(moves@[i as int]));
            lemma_generated_are_legal(g, moves@[i as int]);
            lemma_below_prefix(g, moves@, d, i as int);
            lemma_below_prefix(g, moves@, d, i + 1);
        }
        let m = moves[i];
        let sub = visit(game, &m, depth);
        match sum_of(result, sub) {
            Some(sum) => {
                result = sum;
            },
            None => {
                return None;
            },
        }
        i += 1;
    }
    proof {
        assert(moves@.take(n as int) =~= moves@);
    }
    Some(result)
}

/// The sum of a count and a count that may be too great, if it fits the
/// machine's word.
fn sum_of(sum: usize, count: Option<usize>) -> (r: Option<usize>)
    ensures
        r == match count {
            Some(c) => if sum + c <= usize::MAX {
                Some((sum + c) as usize)
            } else {
                None
            },
            None => None,
        },
{
    match count {
        Some(count) => sum.checked_add(count),
        None => None,
    }
}

/// This perft uses incremental updates, i.e. mutates the game constantly by
/// applying and undoing moves. It does not do much allocations, but can't be
/// easily parallelized because of the mutations.
///
/// The game is left as it was found. The count has to fit the machine's word.
pub fn perft(game: &mut Game, depth: usize) -> (count: usize)
    requires
        old(game).wf(),
        depth >= 1,
        leaves(old(game)@, depth as nat) <= usize::MAX,
    ensures
        count == leaves(old(game)@, depth as nat),
        final(game)@ == old(game)@,
        final(game).wf(),
        (final(game)@, count as nat) == walk(old(game)@, depth as nat),
{
    proof {
        lemma_perft_agreement(game@, depth as nat);
    }
    match checked_perft(game, depth) {
        Some(count) => count,
        None => vstd::pervasive::unreached(),
    }
}

/// What one branch of the parallel perft counts: the move is applied to a
/// copy of the game, and the copy is explored one ply less deep. Tells when
/// the count does not fit the machine's word.
pub fn checked_perft_branch(game: &Game, depth: usize, m: &GameMove<Coord>) -> (count: Option<
    usize,
>)
    requires
        game.wf(),
        depth >= 2,
        game@.legal(*m),
    ensures
        counted(count, leaves(game@.apply(*m), (depth - 1) as nat)),
    decreases depth, 0nat,
{
    let mut copy_game = game.clone();
    copy_game.apply_move_unchecked(m);
    checked_parallel_perft(&copy_game, depth - 1)
}

/// Counts on copies of the game, one for every move that is explored. Tells
/// when the count does not fit the machine's word.
pub fn checked_parallel_perft(game: &Game, depth: usize) -> (count: Option<usize>)
    requires
        game.wf(),
        depth >= 1,
    ensures
        counted(count, leaves(game@, depth as nat)),
    decreases depth, 1nat,
{
    let moves = game.generate_moves();
    if depth == 1 {
        return Some(moves.len());
    }
    let ghost g = game@;
    let ghost d = (depth - 1) as nat;
    let mut result: usize = 0;
    let n = moves.len();
    let mut i: usize = 0;
    assert(moves@.take(0) =~= Seq::<GameMove<Coord>>::empty());
    while i < n
        invariant
            n == moves.len(),
            i <= n,
            depth >= 2,
            d == depth - 1,
            game@ == g,
            game.wf(),
            moves@ == g.generated(),
            result == below(g, moves@.take(i as int), d),
        decreases n - i,
    {
        proof {
            assert(moves@.contains(moves@[i as int]));
            lemma_generated_are_legal(g, moves@[i as int]);
            lemma_below_prefix(g, moves@, d, i as int);
            lemma_below_prefix(g, moves@, d, i + 1);
        }
        match sum_of(result, checked_perft_branch(game, depth, &moves[i])) {
            Some(sum) => {
                result = sum;
            },
            None => {
                return None;
            },
        }
        i += 1;
    }
    proof {
        assert(moves@.take(n as int) =~= moves@);
    }
    Some(result)
}

/// What one branch of the parallel perft counts: the move is applied to a
/// copy of the game, and the copy is explored one ply less deep.
///
/// The count has to fit the machine's word.
pub fn perft_branch(game: &Game, depth: usize, m: &GameMove<Coord>) -> (count: usize)
    requires
        game.wf(),
        depth >= 2,
        game@.legal(*m),
        leaves(game@.apply(*m), (depth - 1) as nat) <= usize::MAX,
    ensures
        count == leaves(game@.apply(*m), (depth - 1) as nat),
{
    match checked_perft_branch(game, depth, m) {
        Some(count) => count,
        None => vstd::pervasive::unreached(),
    }
}

/// This perft uses a clone of the game every time it explores a new move.
/// Hence it makes a lot of allocations and uses a lot of memory, but its
/// branches do not share anything and can be handed out to threads.
///
/// The count has to fit the machine's word.
pub fn parallel_perft(game: &Game, depth: usize) -> (count: usize)
    requires
        game.wf(),
        depth >= 1,
        leaves(game@, depth as nat) <= usize::MAX,
    ensures
        count == leaves(game@, depth as nat),
{
    match checked_parallel_perft(game, depth) {
        Some(count) => count,
        None => vstd::pervasive::unreached(),
    }
}

/// What the sequential form leaves of a game and what it counts: at each
/// move in turn it applies the move to the game as it then is, explores one
/// ply less deep, and takes the move back.
pub open spec fn walk(g: GameView, depth: nat) -> (GameView, nat)
    decreases depth, 0nat,
{
    if depth <= 1 {
        (g, g.generated().len())
    } else {
        walk_through(g, g.generated(), (depth - 1) as nat)
    }
}

/// `walk` over the given moves, from first to last.
pub open spec fn walk_through(g: GameView, moves: Seq<GameMove<Coord>>, depth: nat) -> (
    GameView,
    nat,
)
    decreases depth, moves.len() + 1,
{
    if moves.len() == 0 {
        (g, 0)
    } else {
        let before = walk_through(g, moves.drop_last(), depth);
        let m = moves.last();
        let sub = walk(before.0.apply(m), depth);
        (sub.0.undo(m, before.0.fight_outcome(m)), before.1 + sub.1)
    }
}

/// The two forms of perft agree: on a valid game the sequential form, which
/// applies and takes back, leaves the game as it found it and counts what
/// the parallel form, which explores copies, counts.
pub proof fn lemma_perft_agreement(g: GameView, depth: nat)
    requires
        g.wf(),
    ensures
        walk(g, depth) == (g, leaves(g, depth)),
    decreases depth, 0nat,
{
    if depth > 1 {
        assert forall|k: int| 0 <= k < g.generated().len() implies g.legal(
            #[trigger] g.generated()[k],
        ) by {
            assert(g.generated().contains(g.generated()[k]));
            lemma_generated_are_legal(g, g.generated()[k]);
        }
        lemma_walk_through(g, g.generated(), (depth - 1) as nat);
    }
}

/// `lemma_perft_agreement` for the moves of one position.
pub proof fn lemma_walk_through(g: GameView, moves: Seq<GameMove<Coord>>, depth: nat)
    requires
        g.wf(),
        forall|k: int| 0 <= k < moves.len() ==> g.legal(#[trigger] moves[k]),
    ensures
        walk_through(g, moves, depth) == (g, below(g, moves, depth)),
    decreases depth, moves.len() + 1,
{
    if moves.len() > 0 {
        let front = moves.drop_last();
        let m = moves.last();
        assert forall|k: int| 0 <= k < front.len() implies g.legal(#[trigger] front[k]) by {
            assert(front[k] == moves[k]);
        }
        lemma_walk_through(g, front, depth);
        assert(g.legal(moves[moves.len() - 1]));
        lemma_apply_wf(g, m);
        lemma_perft_agreement(g.apply(m), depth);
        lemma_undo_restores(g, m);
    }
}

/// The two forms of perft return the same: on a valid game and a depth of
/// at least one both return the number of move sequences, or both tell that
/// it does not fit the machine's word.
pub proof fn lemma_counts_agree(
    g: GameView,
    depth: nat,
    sequential: Option<usize>,
    parallel: Option<usize>,
)
    requires
        counted(sequential, leaves(g, depth)),
        counted(parallel, leaves(g, depth)),
    ensures
        sequential == parallel,
{
}

} // verus!
