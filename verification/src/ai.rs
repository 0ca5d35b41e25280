//! The static evaluation of positions and what the search for a move asks of
//! the game.

use crate::board::BoardView;
use crate::cells::Cell;
use crate::coord::Coord;
use crate::game::{Game, GameMove, GameResult};
use crate::grid::MAX_CARDS;
use crate::rules::GameView;
use crate::triples::{combinations3, lemma_combinations3_len, naming};
use vstd::prelude::*;

verus! {

impl BoardView {
    /// What one card adds to the evaluation, from the first player's point
    /// of view. A card with one die counts as often as a line passes through
    /// it, for the owner of the die. A card with two dice counts once more,
    /// for the owner of the upper die. Other cards count nothing.
    pub open spec fn worth(self, cell: Cell) -> int {
        let lines = self.triples.filter(naming(cell.0)).len() as int;
        if cell.1.dice.len() == 1 {
            if cell.1.dice[0].first_players() {
                lines
            } else {
                -lines
            }
        } else if cell.1.dice.len() == 2 {
            if cell.1.dice[1].first_players() {
                lines + 1
            } else {
                -lines - 1
            }
        } else {
            0
        }
    }

    /// The sum of what the first `n` cards are worth.
    pub open spec fn worth_of_first(self, n: int) -> int
        decreases n,
    {
        if n <= 0 {
            0
        } else {
            self.worth_of_first(n - 1) + self.worth(self.cells[n - 1])
        }
    }

    /// A valid board has at most `MAX_CARDS` cubed cached lines.
    pub proof fn lemma_triples_bound(self)
        requires
            self.wf(),
        ensures
            self.triples.len() <= 2097152,
    {
        let keys = self.keys();
        lemma_combinations3_len(keys);
        combinations3(keys).lemma_filter_len(self.grid.line_test());
        let n = keys.len() as int;
        assert(n * n * n <= 2097152) by (nonlinear_arith)
            requires
                0 <= n <= 128,
        ;
    }
}

impl GameView {
    /// The evaluation of the position for the first player: the greatest
    /// number where the first player has won, the least where the second
    /// has, else what the cards are worth.
    pub open spec fn score(self) -> int {
        match self.result {
            GameResult::FirstPlayerWon => i32::MAX as int,
            GameResult::SecondPlayerWon => i32::MIN as int,
            GameResult::InProgress => self.board.worth_of_first(self.board.cells.len() as int),
        }
    }

    /// The evaluation of the position for a player.
    pub open spec fn score_for(self, first: bool) -> int {
        if first {
            self.score()
        } else if self.score() == i32::MAX {
            i32::MIN as int
        } else if self.score() == i32::MIN {
            i32::MAX as int
        } else {
            -self.score()
        }
    }
}

/// The evaluation of the position for the first player.
pub fn evaluate_for_first_player(game: &Game) -> (score: i32)
    requires
        game.board.wf(),
    ensures
        score == game@.score(),
        game@.result == GameResult::InProgress ==> -268435584 <= score <= 268435584,
{
    match game.result {
        GameResult::FirstPlayerWon => i32::MAX,
        GameResult::SecondPlayerWon => i32::MIN,
        GameResult::InProgress => {
            // Count every uncovered die as many times as it is in triples
            // (i.e. central cards will be counted as 2 and side cards as 1
            // in a typical Bricks7 layout). Covered dice give a bonus to the
            // player who covers them.
            let ghost b = game@.board;
            let mut sum: i32 = 0;
            let n = game.board.cards.len();
            let mut i: usize = 0;
            proof {
                b.lemma_triples_bound();
            }
            while i < n
                invariant
                    n == game.board.cards.len(),
                    n <= MAX_CARDS,
                    i <= n,
                    b == game@.board,
                    b.triples.len() <= 2097152,
                    sum == b.worth_of_first(i as int),
                    -2097153 * i <= sum <= 2097153 * i,
                decreases n - i,
            {
                let coord = game.board.cards[i].0;
                let dice = &game.board.cards[i].1.dice;
                assert(b.cells[i as int].1.dice == dice@);
                proof {
                    b.triples.lemma_filter_len(naming(coord));
                }
                if dice.len() == 1 {
                    let triples = game.board.num_of_adjacent_triples(coord) as i32;
                    if dice[0].belongs_to_player1() {
                        sum += triples;
                    } else {
                        sum -= triples;
                    }
                } else if dice.len() == 2 {
                    let triples = game.board.num_of_adjacent_triples(coord) as i32;
                    if dice[1].belongs_to_player1() {
                        sum += triples + 1;
                    } else {
                        sum -= triples + 1;
                    }
                }
                i += 1;
            }
            sum
        },
    }
}

/// The evaluation of the position for a player.
pub fn evaluate_for_player(game: &Game, player: bool) -> (score: i32)
    requires
        game.board.wf(),
    ensures
        score == game@.score_for(player),
{
    let eval = evaluate_for_first_player(game);
    if player {
        eval
    } else if eval == i32::MAX {
        i32::MIN
    } else if eval == i32::MIN {
        i32::MAX
    } else {
        -eval
    }
}

/// An evaluation as text: `inf` and `-inf` for the greatest and the least
/// number, else the number.
pub fn pp_evaluation(score: i32) -> (text: String)
    ensures
        score == i32::MAX ==> text@ == "inf"@,
        score == i32::MIN ==> text@ == "-inf"@,
        i32::MIN < score < i32::MAX ==> vstd::string::to_string_from_display_ensures::<i32>(
            &score,
            text,
        ),
{
    if score == i32::MAX {
        "inf".to_owned()
    } else if score == i32::MIN {
        "-inf".to_owned()
    } else {
        score.to_string()
    }
}

impl Game {
    /// For the search: whether it is the given player's turn, and the moves
    /// that the generator proposes.
    pub fn actions(&self, player: bool) -> (r: (bool, Vec<GameMove<Coord>>))
        requires
            self@.consistent(),
        ensures
            r.0 == (player == self@.player1_moves),
            r.1@ == self@.generated(),
    {
        (player == self.player1_moves, self.generate_moves())
    }

    /// For the search: applies a valid move and evaluates the position that
    /// it leads to for the given player.
    pub fn execute(&mut self, action: &GameMove<Coord>, player: bool) -> (fitness: i32)
        requires
            old(self).wf(),
            old(self)@.legal(*action),
        ensures
            final(self).wf(),
            final(self)@ == old(self)@.apply(*action),
            fitness == old(self)@.apply(*action).score_for(player),
    {
        self.apply_move_unchecked(action);
        evaluate_for_player(self, player)
    }

    /// For the search: whether no position is better for the player than one
    /// of this fitness.
    pub fn is_upper_bound(&self, fitness: i32, _player: bool) -> (b: bool)
        ensures
            b == (fitness == i32::MAX),
    {
        fitness == i32::MAX
    }

    /// For the search: whether no position is worse for the player than one
    /// of this fitness.
    pub fn is_lower_bound(&self, fitness: i32, _player: bool) -> (b: bool)
        ensures
            b == (fitness == i32::MIN),
    {
        fitness == i32::MIN
    }
}

/// When the search for a move stops.
#[derive(PartialEq, Eq, Structural, Debug, Copy, Clone)]
pub enum RunCondition {
    /// After this many seconds.
    Duration(u64),
    /// At this depth, in plies.
    Depth(u32),
    /// When every line of play has been followed to its end.
    ToCompletion,
}

/// The settings of the alpha-beta player: for whom it plays and when its
/// search stops.
#[derive(PartialEq, Eq, Structural, Debug, Copy, Clone)]
pub struct AlphaBetaAI {
    pub for_first_player: bool,
    pub duration: u64,
    pub depth: u32,
}

impl AlphaBetaAI {
    /// A player that searches for the given number of seconds.
    pub fn with_duration(for_first_player: bool, duration: u64) -> (ai: AlphaBetaAI)
        ensures
            ai == (AlphaBetaAI { for_first_player, duration, depth: 0 }),
    {
        AlphaBetaAI { for_first_player, duration, depth: 0 }
    }

    /// A player that searches down to the given depth, in plies.
    pub fn with_depth(for_first_player: bool, depth: u32) -> (ai: AlphaBetaAI)
        ensures
            ai == (AlphaBetaAI { for_first_player, duration: 0, depth }),
    {
        AlphaBetaAI { for_first_player, duration: 0, depth }
    }

    /// A player that searches until every line of play is followed to its end.
    pub fn to_completion(for_first_player: bool) -> (ai: AlphaBetaAI)
        ensures
            ai == (AlphaBetaAI { for_first_player, duration: 0, depth: 0 }),
    {
        AlphaBetaAI { for_first_player, duration: 0, depth: 0 }
    }

    /// When the search stops: after the duration if one is set, else at the
    /// depth if one is set, else at completion.
    pub fn run_condition(&self) -> (c: RunCondition)
        ensures
            c == if self.duration != 0 {
                RunCondition::Duration(self.duration)
            } else if self.depth != 0 {
                RunCondition::Depth(self.depth)
            } else {
                RunCondition::ToCompletion
            },
    {
        if self.duration != 0 {
            RunCondition::Duration(self.duration)
        } else if self.depth != 0 {
            RunCondition::Depth(self.depth)
        } else {
            RunCondition::ToCompletion
        }
    }
}

} // verus!
