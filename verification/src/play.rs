//! Strategies, and a match played to its end.

use crate::coord::Coord;
use crate::game::{Game, GameFeatures, GameMove, GameResult, ValidationError};
use crate::rules::{FeaturesView, GameView};
use vstd::prelude::*;

verus! {

/// A way to choose moves. It is asked only in a valid game in which the
/// generator proposes a move.
pub trait Strategy {
    fn get_move(&mut self, game: &Game) -> (m: GameMove<Coord>)
        requires
            game.wf(),
            game@.generated().len() > 0,
    ;
}

/// Plays one of the moves that the generator proposes, chosen at random.
pub struct RandomAI;

impl Strategy for RandomAI {
    fn get_move(&mut self, game: &Game) -> (m: GameMove<Coord>)
        ensures
            game@.generated().contains(m),
    {
        game.random_move()
    }
}

/// Whether a situation is the given one.
pub open spec fn being(f: FeaturesView) -> spec_fn(FeaturesView) -> bool {
    |x: FeaturesView| x == f
}

/// How often a situation occurs among the situations.
pub open spec fn occurrences(seen: Seq<FeaturesView>, f: FeaturesView) -> nat {
    seen.filter(being(f)).len()
}

/// What the rules see of a match.
pub struct MatchView {
    pub game: GameView,
    /// The situations after each of the moves played, first to last.
    pub seen: Seq<FeaturesView>,
    pub draw: bool,
}

/// A game that is played to its end, with the situations that it went
/// through: the third occurrence of a situation makes the game a draw.
pub struct Match {
    pub game: Game,
    pub positions: Vec<GameFeatures>,
    pub draw: bool,
}

impl View for Match {
    type V = MatchView;

    open spec fn view(&self) -> MatchView {
        MatchView {
            game: self.game@,
            seen: self.positions@.map_values(|f: GameFeatures| f@),
            draw: self.draw,
        }
    }
}

impl MatchView {
    /// The match after a valid move: the move applied, the situation
    /// recorded, and a draw if the situation has now occurred three times.
    pub open spec fn played(self, m: GameMove<Coord>) -> MatchView {
        let game = self.game.apply(m);
        let seen = self.seen.push(game.features());
        MatchView { game, seen, draw: self.draw || occurrences(seen, game.features()) == 3 }
    }

    /// The result of the match: 0 for a draw, 1 if the first player has
    /// won, else -1.
    pub open spec fn outcome(self) -> int {
        if self.draw {
            0
        } else if self.game.result == GameResult::FirstPlayerWon {
            1
        } else {
            -1
        }
    }
}

impl Match {
    /// A match that starts from the given game.
    pub fn new(game: Game) -> (m: Match)
        ensures
            m@ == (MatchView { game: game@, seen: Seq::empty(), draw: false }),
    {
        let m = Match { game, positions: Vec::new(), draw: false };
        assert(m@.seen =~= Seq::<FeaturesView>::empty());
        m
    }

    /// Whether the match has ended: by a win or by a draw.
    pub fn is_over(&self) -> (b: bool)
        ensures
            b == (self@.game.result != GameResult::InProgress || self@.draw),
    {
        self.game.is_game_over() || self.draw
    }

    /// How often the given situation has occurred.
    fn count(&self, f: &GameFeatures) -> (n: usize)
        ensures
            n == occurrences(self@.seen, f@),
    {
        let ghost seen = self@.seen;
        let ghost test = being(f@);
        let mut count: usize = 0;
        let n = self.positions.len();
        let mut i: usize = 0;
        while i < n
            invariant
                n == self.positions.len(),
                i <= n,
                seen == self@.seen,
                test == being(f@),
                count <= i,
                count == seen.take(i as int).filter(test).len(),
            decreases n - i,
        {
            proof {
                seen.lemma_take_succ_push(i as int);
                seen.take(i as int).lemma_filter_push(seen[i as int], test);
            }
            if self.positions[i].same_as(f) {
                count += 1;
            }
            i += 1;
        }
        proof {
            seen.lemma_take_len();
        }
        count
    }

    /// Plays a move, if it is valid: the move is applied and the new
    /// situation recorded; its third occurrence makes the match a draw.
    pub fn play(&mut self, game_move: &GameMove<Coord>) -> (r: Result<(), ValidationError>)
        requires
            old(self).game.wf(),
        ensures
            final(self).game.wf(),
            match old(self)@.game.validation(old(self)@.game.player1_moves, *game_move) {
                Ok(_) => r is Ok && final(self)@ == old(self)@.played(*game_move),
                Err(e) => r == Err::<(), ValidationError>(e) && final(self)@ == old(self)@,
            },
    {
        let ghost before = self@;
        match self.game.apply_move(game_move) {
            Err(e) => Err(e),
            Ok(_) => {
                let features = self.game.defining_features();
                let ghost f = features@;
                let earlier = self.count(&features);
                self.positions.push(features);
                proof {
                    assert(self@.seen =~= before.seen.push(f));
                    before.seen.lemma_filter_push(f, being(f));
                }
                if earlier == 2 {
                    self.draw = true;
                }
                Ok(())
            },
        }
    }

    /// The result of the match: 0 for a draw, 1 if the first player has
    /// won, else -1.
    pub fn outcome(&self) -> (r: i8)
        ensures
            r == self@.outcome(),
    {
        if self.draw {
            0
        } else if self.game.result == GameResult::FirstPlayerWon {
            1
        } else {
            -1
        }
    }
}

} // verus!
