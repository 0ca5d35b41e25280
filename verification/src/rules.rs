//! The rules of the game as a mathematical model: valid moves, their effect,
//! and the result.

use crate::board::BoardView;
use crate::card::{CardView, Die};
use crate::cells::Cell;
use crate::coord::Coord;
use crate::game::{FightResult, GameMove, GameResult, Rules, ValidationError, ZIndex};
use crate::stock::{distinct, stock_sorted, stock_with, stock_without};
use crate::triples::Triple;
use vstd::prelude::*;

verus! {

/// The winner that owns the given die.
pub open spec fn winner_of(d: Die) -> GameResult {
    if d.first_players() {
        GameResult::FirstPlayerWon
    } else {
        GameResult::SecondPlayerWon
    }
}

/// The result for the player who is left without a move.
pub open spec fn loss_of(first: bool) -> GameResult {
    if first {
        GameResult::SecondPlayerWon
    } else {
        GameResult::FirstPlayerWon
    }
}

/// Three in a stack: the owner of the bottom die of the first card, from
/// cell `i` on, that holds more than two dice.
pub open spec fn stack_result_from(cells: Seq<Cell>, i: int) -> GameResult
    decreases cells.len() - i,
{
    if i < 0 || i >= cells.len() {
        GameResult::InProgress
    } else if cells[i].1.dice.len() > 2 {
        winner_of(cells[i].1.dice[0])
    } else {
        stack_result_from(cells, i + 1)
    }
}

impl BoardView {
    /// The uncovered die at `c`, if a card with dice lies there.
    pub open spec fn top_at(self, c: Coord) -> Option<Die> {
        if self.has(c) {
            self.card(c).top()
        } else {
            None
        }
    }

    /// The player whose uncovered dice fill the three positions, if any.
    pub open spec fn line_result(self, t: Triple) -> GameResult {
        match (self.top_at(t.0), self.top_at(t.1), self.top_at(t.2)) {
            (Some(d1), Some(d2), Some(d3)) => {
                if d1.first_players() && d2.first_players() && d3.first_players() {
                    GameResult::FirstPlayerWon
                } else if !d1.first_players() && !d2.first_players() && !d3.first_players() {
                    GameResult::SecondPlayerWon
                } else {
                    GameResult::InProgress
                }
            },
            _ => GameResult::InProgress,
        }
    }

    /// Three in a row: the winner of the first cached line, from line `i`
    /// on, that one player fills.
    pub open spec fn row_result_from(self, i: int) -> GameResult
        decreases self.triples.len() - i,
    {
        if i < 0 || i >= self.triples.len() {
            GameResult::InProgress
        } else if self.line_result(self.triples[i]) != GameResult::InProgress {
            self.line_result(self.triples[i])
        } else {
            self.row_result_from(i + 1)
        }
    }

    /// Three in a stack: the owner of the bottom die of the first card that
    /// holds more than two dice.
    pub open spec fn stack_result(self) -> GameResult {
        stack_result_from(self.cells, 0)
    }

    /// Three in a row: the winner of the first cached line that one player
    /// fills.
    pub open spec fn row_result(self) -> GameResult {
        self.row_result_from(0)
    }
}

/// The placings of each of the dice on the position `c`.
pub open spec fn placings_at(dice: Seq<Die>, c: Coord) -> Seq<GameMove<Coord>> {
    dice.map_values(|d: Die| GameMove::Place(d, c))
}

/// `placings_at` as a function of the position.
pub open spec fn placings(dice: Seq<Die>) -> spec_fn(Coord) -> Seq<GameMove<Coord>> {
    |c: Coord| placings_at(dice, c)
}

/// A fight on each of the positions.
pub open spec fn fights_on(positions: Seq<Coord>) -> Seq<GameMove<Coord>> {
    positions.map_values(|c: Coord| GameMove::Fight(c))
}

/// The moves of the uncovered die `a.1` at `a.0` to each of the positions.
pub open spec fn moves_to(positions: Seq<Coord>, a: (Coord, Die)) -> Seq<GameMove<Coord>> {
    positions.map_values(|to: Coord| GameMove::Move(a.1, a.0, to))
}

/// The surprises that take the card at `from` to each of the positions.
pub open spec fn surprises_to(positions: Seq<Coord>, from: Coord) -> Seq<GameMove<Coord>> {
    positions.map_values(|to: Coord| GameMove::Surprise(from, to))
}

/// What the rules see of a game.
#[verifier::ext_equal]
pub struct GameView {
    pub board: BoardView,
    pub rules: Rules,
    /// The first player's name.
    pub name1: Seq<char>,
    /// The second player's name.
    pub name2: Seq<char>,
    /// The first player's dice that are not on the board, in order.
    pub stock1: Seq<Die>,
    /// The second player's dice that are not on the board, in order.
    pub stock2: Seq<Die>,
    pub player1_moves: bool,
    pub surprises1: u8,
    pub surprises2: u8,
    pub result: GameResult,
    pub history: Seq<GameMove<Coord>>,
}

/// What tells one game situation from another: the cards with their dice,
/// both stocks, whose turn it is and the surprises used.
pub struct FeaturesView {
    pub cells: Seq<Cell>,
    pub stock1: Seq<Die>,
    pub stock2: Seq<Die>,
    pub player1_moves: bool,
    pub surprises1: u8,
    pub surprises2: u8,
}

// The parts of a game.
impl GameView {
    /// The stock of the first or of the second player.
    pub open spec fn stock(self, first: bool) -> Seq<Die> {
        if first {
            self.stock1
        } else {
            self.stock2
        }
    }

    /// The name of the first or of the second player.
    pub open spec fn name(self, first: bool) -> Seq<char> {
        if first {
            self.name1
        } else {
            self.name2
        }
    }

    /// The game with another name of the first or of the second player.
    pub open spec fn with_name(self, first: bool, name: Seq<char>) -> GameView {
        if first {
            GameView { name1: name, ..self }
        } else {
            GameView { name2: name, ..self }
        }
    }

    /// The number of surprises that the first or the second player has used.
    pub open spec fn surprises(self, first: bool) -> u8 {
        if first {
            self.surprises1
        } else {
            self.surprises2
        }
    }

    /// The game with another board.
    pub open spec fn with_board(self, board: BoardView) -> GameView {
        GameView { board, ..self }
    }

    /// The game with another result.
    pub open spec fn with_result(self, result: GameResult) -> GameView {
        GameView { result, ..self }
    }

    /// The game with another stock of the first or of the second player.
    pub open spec fn with_stock(self, first: bool, stock: Seq<Die>) -> GameView {
        if first {
            GameView { stock1: stock, ..self }
        } else {
            GameView { stock2: stock, ..self }
        }
    }

    /// The game with another number of surprises used by the first or by the
    /// second player.
    pub open spec fn with_surprises(self, first: bool, n: u8) -> GameView {
        if first {
            GameView { surprises1: n, ..self }
        } else {
            GameView { surprises2: n, ..self }
        }
    }

    /// The defining features of the game.
    pub open spec fn features(self) -> FeaturesView {
        FeaturesView {
            cells: self.board.cells,
            stock1: self.stock1,
            stock2: self.stock2,
            player1_moves: self.player1_moves,
            surprises1: self.surprises1,
            surprises2: self.surprises2,
        }
    }

    /// The game as far as each part must be on its own: a valid board, sorted
    /// stocks, at most one surprise used by each player.
    pub open spec fn consistent(self) -> bool {
        &&& self.board.wf()
        &&& stock_sorted(self.stock1)
        &&& stock_sorted(self.stock2)
        &&& self.surprises1 <= 1
        &&& self.surprises2 <= 1
    }

    /// The game as it must be: consistent, and in progress only if the board
    /// shows no win.
    pub open spec fn wf(self) -> bool {
        &&& self.consistent()
        &&& self.result == GameResult::InProgress ==> self.result_without_no_moves()
            == GameResult::InProgress
    }
}

// Which moves are valid.
impl GameView {
    /// Whether all dice of a stack are the given player's.
    pub open spec fn all_of(dice: Seq<Die>, first: bool) -> bool {
        forall|k: int| 0 <= k < dice.len() ==> (#[trigger] dice[k]).first_players() == first
    }

    /// Whether some die of a stack is the given player's.
    pub open spec fn any_of(dice: Seq<Die>, first: bool) -> bool {
        exists|k: int| 0 <= k < dice.len() && (#[trigger] dice[k]).first_players() == first
    }

    /// The verdict on a move, were it the given player's turn.
    pub open spec fn validation(self, first: bool, m: GameMove<Coord>) -> Result<
        (),
        ValidationError,
    > {
        if self.result != GameResult::InProgress {
            Err(ValidationError::GameOver)
        } else {
            match m {
                GameMove::Place(die, coord) => {
                    if !self.stock(first).contains(die) {
                        Err(ValidationError::NoSuchDie)
                    } else if !self.board.has_empty_card(coord) {
                        Err(ValidationError::TargetNotEmpty)
                    } else {
                        Ok(())
                    }
                },
                GameMove::Move(die, from, to) => {
                    if !(self.board.has(from) && self.board.has(to)) {
                        Err(ValidationError::NoSuchCards)
                    } else {
                        let card = self.board.card(from);
                        let target = self.board.card(to);
                        if card.dice.len() == 0 {
                            Err(ValidationError::NoDieToMove)
                        } else if card.dice.last() != die {
                            Err(ValidationError::DieCovered)
                        } else if die.first_players() != first {
                            Err(ValidationError::NotYourDie)
                        } else if card.kind == target.kind {
                            Err(ValidationError::SameKind)
                        } else if !(target.dice.len() < 2 || Self::all_of(target.dice, first)) {
                            Err(ValidationError::CannotCover)
                        } else {
                            Ok(())
                        }
                    }
                },
                GameMove::Fight(coord) => {
                    if !self.rules.enable_fight_move {
                        Err(ValidationError::FightDisabled)
                    } else if !self.board.has(coord) {
                        Err(ValidationError::NoCardToFight)
                    } else if self.board.card(coord).dice.len() != 2 {
                        Err(ValidationError::NotTwoDice)
                    } else if !Self::any_of(self.board.card(coord).dice, first) {
                        Err(ValidationError::NoneYours)
                    } else {
                        Ok(())
                    }
                },
                GameMove::Surprise(from, to) => {
                    if !self.rules.enable_surprise_move {
                        Err(ValidationError::SurpriseDisabled)
                    } else if !self.board.has(from) {
                        Err(ValidationError::NoCardToMove)
                    } else if self.board.has(to) {
                        Err(ValidationError::TargetOccupied)
                    } else if !self.board.grid.admits(to) {
                        Err(ValidationError::OffGrid)
                    } else if self.board.neighbours(to, from).len() < 2 {
                        Err(ValidationError::TooFewNeighbours)
                    } else if self.surprises(first) >= 1 {
                        Err(ValidationError::SurpriseUsed)
                    } else {
                        Ok(())
                    }
                },
                GameMove::Submit => Ok(()),
            }
        }
    }

    /// Whether the move would be valid, were it the given player's turn.
    pub open spec fn legal_for(self, first: bool, m: GameMove<Coord>) -> bool {
        self.validation(first, m) is Ok
    }

    /// `legal_for` as a test on moves.
    pub open spec fn legal_test(self, first: bool) -> spec_fn(GameMove<Coord>) -> bool {
        |m: GameMove<Coord>| self.legal_for(first, m)
    }

    /// Whether the move is valid for the player to move.
    pub open spec fn legal(self, m: GameMove<Coord>) -> bool {
        self.legal_for(self.player1_moves, m)
    }
}

// Which moves are proposed.
impl GameView {
    /// The placings of each of the dice on each of the positions, position by position.
    pub open spec fn place_moves(positions: Seq<Coord>, dice: Seq<Die>) -> Seq<GameMove<Coord>> {
        positions.flat_map(placings(dice))
    }

    /// The dice that the generator places: each different die of the stock
    /// where dice can fight, else the first die of the stock.
    pub open spec fn dice_to_place(self, first: bool) -> Seq<Die> {
        if self.rules.enable_fight_move {
            distinct(self.stock(first))
        } else if self.stock(first).len() > 0 {
            seq![self.stock(first)[0]]
        } else {
            Seq::empty()
        }
    }

    /// The valid fights, by position.
    pub open spec fn fight_moves(self, first: bool) -> Seq<GameMove<Coord>> {
        if self.rules.enable_fight_move {
            fights_on(self.board.keys()).filter(self.legal_test(first))
        } else {
            Seq::empty()
        }
    }

    /// The valid moves of one uncovered die, by target.
    pub open spec fn moves_of_die(self, first: bool, a: (Coord, Die)) -> Seq<GameMove<Coord>> {
        moves_to(self.board.keys(), a).filter(self.legal_test(first))
    }

    /// `moves_of_die` as a function of the die.
    pub open spec fn mover(self, first: bool) -> spec_fn((Coord, Die)) -> Seq<GameMove<Coord>> {
        |a: (Coord, Die)| self.moves_of_die(first, a)
    }

    /// The valid moves of dice, by source, then target.
    pub open spec fn move_moves(self, first: bool) -> Seq<GameMove<Coord>> {
        self.board.actives(first).flat_map(self.mover(first))
    }

    /// The valid surprises of one card, by target.
    pub open spec fn surprises_of(self, first: bool, from: Coord) -> Seq<GameMove<Coord>> {
        surprises_to(self.board.targets(), from).filter(self.legal_test(first))
    }

    /// `surprises_of` as a function of the card's position.
    pub open spec fn surpriser(self, first: bool) -> spec_fn(Coord) -> Seq<GameMove<Coord>> {
        |from: Coord| self.surprises_of(first, from)
    }

    /// The valid surprises, by source, then target.
    pub open spec fn surprise_moves(self, first: bool) -> Seq<GameMove<Coord>> {
        if self.rules.enable_surprise_move && self.surprises(first) == 0 {
            self.board.keys().flat_map(self.surpriser(first))
        } else {
            Seq::empty()
        }
    }

    /// The moves that the generator proposes for a player: placings, fights,
    /// moves of dice, surprises; never giving up.
    pub open spec fn moves_for(self, first: bool) -> Seq<GameMove<Coord>> {
        Self::place_moves(self.board.empties(), self.dice_to_place(first)) + self.fight_moves(first)
            + self.move_moves(first) + self.surprise_moves(first)
    }

    /// The moves that the generator proposes in this position.
    pub open spec fn generated(self) -> Seq<GameMove<Coord>> {
        if self.result != GameResult::InProgress {
            Seq::empty()
        } else {
            self.moves_for(self.player1_moves)
        }
    }
}

// Who has won.
impl GameView {
    /// The result as far as the board shows it: three in a stack, else three
    /// in a row.
    pub open spec fn result_without_no_moves(self) -> GameResult {
        if self.board.stack_result() != GameResult::InProgress {
            self.board.stack_result()
        } else {
            self.board.row_result()
        }
    }

    /// The result after the player to move has changed the position: three
    /// in a stack, else three in a row, else a loss of the other player if
    /// that player is left without a move.
    pub open spec fn full_result(self) -> GameResult {
        if self.result_without_no_moves() != GameResult::InProgress {
            self.result_without_no_moves()
        } else if self.moves_for(!self.player1_moves).len() > 0 {
            GameResult::InProgress
        } else {
            loss_of(!self.player1_moves)
        }
    }
}

// What a move does.
impl GameView {
    /// What a fight at `place` leaves: the winner, the loser, and whether the
    /// winner lay at the bottom.
    pub open spec fn fight_at(self, place: Coord) -> (Die, Die, bool) {
        let dice = self.board.card(place).dice;
        Die::fight(dice.last(), dice.drop_last().last())
    }

    /// The position after the change that is particular to the kind of
    /// move, with the result that the change leads to.
    pub open spec fn changed(self, m: GameMove<Coord>) -> GameView {
        let first = self.player1_moves;
        match m {
            GameMove::Place(die, coord) => {
                let g = self.with_stock(first, stock_without(self.stock(first), die)).with_board(
                    self.board.with_card(coord, self.board.card(coord).pushed(die)),
                );
                g.with_result(g.full_result())
            },
            GameMove::Move(_, from, to) => {
                let die = self.board.card(from).dice.last();
                let lifted = self.board.with_card(from, self.board.card(from).popped());
                let landed = lifted.with_card(to, lifted.card(to).pushed(die));
                let g = self.with_board(landed);
                if lifted.row_result() != GameResult::InProgress {
                    g.with_result(lifted.row_result())
                } else {
                    g.with_result(g.full_result())
                }
            },
            GameMove::Fight(place) => {
                let card = self.board.card(place);
                let f = self.fight_at(place);
                let after = CardView {
                    kind: card.kind,
                    dice: card.dice.drop_last().drop_last().push(f.0),
                };
                let owner = f.1.first_players();
                let g = self.with_board(self.board.with_card(place, after)).with_stock(
                    owner,
                    stock_with(self.stock(owner), f.1),
                );
                g.with_result(g.full_result())
            },
            GameMove::Surprise(from, to) => {
                let g = self.with_board(self.board.relocated(from, to)).with_surprises(
                    first,
                    (self.surprises(first) + 1) as u8,
                );
                g.with_result(g.full_result())
            },
            GameMove::Submit => self.with_result(loss_of(first)),
        }
    }

    /// The position after a move: changed, the turn passed on, the move
    /// recorded.
    pub open spec fn apply(self, m: GameMove<Coord>) -> GameView {
        GameView {
            player1_moves: !self.player1_moves,
            history: self.history.push(m),
            ..self.changed(m)
        }
    }

    /// What has to be kept of a move to take it back: of a fight, the die
    /// that lost and where it lay.
    pub open spec fn fight_outcome(self, m: GameMove<Coord>) -> Option<FightResult> {
        match m {
            GameMove::Fight(place) => {
                let f = self.fight_at(place);
                Some(
                    FightResult {
                        losing_die: f.1,
                        losing_position: if f.2 {
                            ZIndex::Top
                        } else {
                            ZIndex::Bottom
                        },
                    },
                )
            },
            _ => None,
        }
    }
}

// What taking a move back does.
impl GameView {
    /// Where in the stack the losing die goes back.
    pub open spec fn index_of_loser(r: FightResult) -> int {
        match r.losing_position {
            ZIndex::Top => 1,
            ZIndex::Bottom => 0,
        }
    }

    /// Whether the position has what taking back the move will reach for.
    pub open spec fn can_undo(self, m: GameMove<Coord>, fight_result: Option<FightResult>) -> bool {
        let first = !self.player1_moves;
        match m {
            GameMove::Place(_, coord) => self.board.has(coord) && self.board.card(coord).dice.len()
                > 0,
            GameMove::Move(_, from, to) => self.board.has(from) && self.board.has(to)
                && self.board.card(to).dice.len() > 0,
            GameMove::Fight(place) => {
                &&& fight_result matches Some(r)
                &&& self.board.has(place)
                &&& Self::index_of_loser(r) <= self.board.card(place).dice.len()
                &&& self.stock(r.losing_die.first_players()).contains(r.losing_die)
            },
            GameMove::Surprise(from, to) => self.board.has(to) && !self.board.has(from)
                && self.board.grid.admits(from) && self.surprises(first) >= 1,
            GameMove::Submit => self.result_without_no_moves() == GameResult::InProgress,
        }
    }

    /// The position after the move was taken back.
    pub open spec fn undo(self, m: GameMove<Coord>, fight_result: Option<FightResult>) -> GameView {
        let first = !self.player1_moves;
        let back = GameView {
            player1_moves: first,
            history: if self.history.len() > 0 {
                self.history.drop_last()
            } else {
                self.history
            },
            ..self
        };
        match m {
            GameMove::Place(_, coord) => {
                let card = self.board.card(coord);
                let g = back.with_board(self.board.with_card(coord, card.popped())).with_stock(
                    first,
                    stock_with(self.stock(first), card.dice.last()),
                );
                g.with_result(g.result_without_no_moves())
            },
            GameMove::Move(_, from, to) => {
                let die = self.board.card(to).dice.last();
                let lifted = self.board.with_card(to, self.board.card(to).popped());
                let landed = lifted.with_card(from, lifted.card(from).pushed(die));
                let g = back.with_board(landed);
                g.with_result(g.result_without_no_moves())
            },
            GameMove::Fight(place) => {
                let r = fight_result->0;
                let card = self.board.card(place);
                let owner = r.losing_die.first_players();
                let restored = CardView {
                    kind: card.kind,
                    dice: card.dice.insert(Self::index_of_loser(r), r.losing_die),
                };
                let g = back.with_stock(owner, stock_without(self.stock(owner), r.losing_die))
                    .with_board(self.board.with_card(place, restored));
                g.with_result(g.result_without_no_moves())
            },
            GameMove::Surprise(from, to) => {
                let g = back.with_board(self.board.relocated(to, from)).with_surprises(
                    first,
                    (self.surprises(first) - 1) as u8,
                );
                g.with_result(g.result_without_no_moves())
            },
            GameMove::Submit => back.with_result(GameResult::InProgress),
        }
    }
}

/// A board without dice shows no win.
pub proof fn lemma_bare_board(b: BoardView, i: int)
    requires
        forall|k: int| 0 <= k < b.cells.len() ==> (#[trigger] b.cells[k]).1.dice.len() == 0,
        b.wf(),
        i >= 0,
    ensures
        stack_result_from(b.cells, i) == GameResult::InProgress,
        b.row_result_from(i) == GameResult::InProgress,
    decreases (if b.cells.len() > b.triples.len() { b.cells.len() } else { b.triples.len() }) - i,
{
    if i < b.cells.len() || i < b.triples.len() {
        lemma_bare_board(b, i + 1);
    }
    if i < b.triples.len() {
        let t = b.triples[i];
        if b.has(t.0) {
            let k = b.index_of(t.0);
            assert(b.cells[k].1.dice.len() == 0);
        }
    }
}

/// A move is valid exactly while the game is in progress and under the
/// conditions of its kind.
pub proof fn lemma_legal(g: GameView, first: bool, m: GameMove<Coord>)
    ensures
        g.legal_for(first, m) <==> g.result == GameResult::InProgress && match m {
            GameMove::Place(die, coord) => g.stock(first).contains(die) && g.board.has_empty_card(
                coord,
            ),
            GameMove::Move(die, from, to) => {
                &&& g.board.has(from)
                &&& g.board.has(to)
                &&& g.board.card(from).top() == Some(die)
                &&& die.first_players() == first
                &&& g.board.card(from).kind != g.board.card(to).kind
                &&& (g.board.card(to).dice.len() < 2 || GameView::all_of(
                    g.board.card(to).dice,
                    first,
                ))
            },
            GameMove::Fight(coord) => {
                &&& g.rules.enable_fight_move
                &&& g.board.has(coord)
                &&& g.board.card(coord).dice.len() == 2
                &&& GameView::any_of(g.board.card(coord).dice, first)
            },
            GameMove::Surprise(from, to) => {
                &&& g.rules.enable_surprise_move
                &&& g.board.has(from)
                &&& !g.board.has(to)
                &&& g.board.grid.admits(to)
                &&& g.board.neighbours(to, from).len() >= 2
                &&& g.surprises(first) == 0
            },
            GameMove::Submit => true,
        },
{
}

} // verus!
