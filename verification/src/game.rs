//! The game: board, players, turn and result, and the moves that change them.

use crate::board::Board;
use crate::card::{Card, CardView, Deck, DiceColor, Die};
use crate::cells::{cells_view, dealt, refs_view};
use crate::convert::ConversionError;
use crate::coord::{Coord, UserCoord};
use crate::layout::Layout;
use crate::parsers::{move_of, parse_move};
use crate::rules::{
    fights_on, lemma_bare_board, loss_of, moves_to, placings, placings_at, stack_result_from,
    surprises_to, FeaturesView, GameView,
};
use crate::sequences::{
    copy_of, lemma_filter_none, lemma_filter_some, lemma_flat_map_none, lemma_flat_map_some,
};
use crate::stock::{
    distinct_dice, find_slot, lemma_distinct_covers, lemma_distinct_within, lemma_stock_with,
    lemma_stock_without, stock_sorted, stock_with, stock_without,
};
use rand::seq::SliceRandom;
use vstd::prelude::*;

verus! {

/// A player. Has a name and a stock of dice, kept in the order of color and value.
#[derive(Debug)]
pub struct Player {
    name: String,
    dice: Vec<Die>,
}

/// Representation of a possible game move. Parametrised by a type of
/// coordinates used (user coordinates or internal ones).
#[derive(PartialEq, Eq, Structural, PartialOrd, Ord, Debug, Clone, Copy, Hash)]
pub enum GameMove<C> {
    Place(Die, C),
    Move(Die, C, C),
    Fight(C),
    Surprise(C, Coord),
    Submit,
}

/// Where in the stack of two the losing die of a fight lay.
#[derive(PartialEq, Eq, Structural, Debug, Copy, Clone)]
pub enum ZIndex {
    Top,
    Bottom,
}

/// What a fight took from the card: enough to put it back.
#[derive(PartialEq, Eq, Structural, Debug, Clone, Copy)]
pub struct FightResult {
    pub losing_die: Die,
    pub losing_position: ZIndex,
}

/// Current game result, can be either won by one of the player or still in
/// progress.
#[derive(PartialEq, Eq, Structural, Debug, Copy, Clone)]
pub enum GameResult {
    InProgress,
    FirstPlayerWon,
    SecondPlayerWon,
}

/// Variations in game rules: whether certain moves are allowed or not.
#[derive(PartialEq, Eq, Structural, Debug, Copy, Clone)]
pub struct Rules {
    pub enable_fight_move: bool,
    pub enable_surprise_move: bool,
}

/// Why a move is not valid. The reasons are tested in the order in which the
/// variants of a move kind stand here, and the first that holds is given.
#[derive(PartialEq, Eq, Structural, Debug, Copy, Clone)]
pub enum ValidationError {
    /// The game is finished.
    GameOver,
    /// Place: the player has no such die in stock.
    NoSuchDie,
    /// Place: no card without dice lies at the target.
    TargetNotEmpty,
    /// Move: a card is missing at the source or at the target.
    NoSuchCards,
    /// Move: the source card holds no die.
    NoDieToMove,
    /// Move: the die named is not the uncovered die of the source card.
    DieCovered,
    /// Move: the die belongs to the other player.
    NotYourDie,
    /// Move: source and target cards are of the same kind.
    SameKind,
    /// Move: the target holds two dice that are not both the mover's.
    CannotCover,
    /// Fight: the rules of this game have no fights.
    FightDisabled,
    /// Fight: no card lies there.
    NoCardToFight,
    /// Fight: the card does not hold exactly two dice.
    NotTwoDice,
    /// Fight: neither die is the mover's.
    NoneYours,
    /// Surprise: the rules of this game have no surprises.
    SurpriseDisabled,
    /// Surprise: no card lies at the source.
    NoCardToMove,
    /// Surprise: a card lies at the target already.
    TargetOccupied,
    /// Surprise: the target is no coordinate of the grid.
    OffGrid,
    /// Surprise: the target has fewer than two neighbours.
    TooFewNeighbours,
    /// Surprise: the player has used the one surprise of the game.
    SurpriseUsed,
}

/// Why a move in user coordinates was not applied.
#[derive(PartialEq, Eq, Structural, Debug, Copy, Clone)]
pub enum MoveError {
    /// The text is no move.
    Syntax,
    /// A coordinate of the move names no card.
    Conversion(ConversionError),
    /// The move is not valid.
    Validation(ValidationError),
}

/// Why parts do not make a game.
#[derive(PartialEq, Eq, Structural, Debug, Copy, Clone)]
pub enum InvalidGame {
    /// A player is said to have used more than one surprise.
    TooManySurprises,
    /// The game is said to be in progress, but the board shows a win.
    FinishedOnBoard,
}

/// Represents the whole game state with board, players and additional state
/// variables (whose move it is, number of used "surprises" and the game
/// result).
#[derive(Debug)]
pub struct Game {
    pub board: Board,
    pub rules: Rules,
    pub player1: Player,
    pub player2: Player,
    pub player1_moves: bool,
    pub player1_surprises: u8,
    pub player2_surprises: u8,
    pub result: GameResult,
    pub history: Vec<GameMove<Coord>>,
}

impl View for Game {
    type V = GameView;

    open spec fn view(&self) -> GameView {
        GameView {
            board: self.board@,
            rules: self.rules,
            name1: self.player1.called(),
            name2: self.player2.called(),
            stock1: self.player1.stock(),
            stock2: self.player2.stock(),
            player1_moves: self.player1_moves,
            surprises1: self.player1_surprises,
            surprises2: self.player2_surprises,
            result: self.result,
            history: self.history@,
        }
    }
}

/// A snapshot of what defines a game situation, to find out whether the same
/// position repeats again and again.
#[derive(PartialOrd, Ord, PartialEq, Eq, Hash, Debug)]
pub struct GameFeatures {
    pub cards: Vec<(Coord, Card)>,
    pub player1_dice: Vec<Die>,
    pub player2_dice: Vec<Die>,
    pub player1_moves: bool,
    pub player1_surprises: u8,
    pub player2_surprises: u8,
}

impl View for GameFeatures {
    type V = FeaturesView;

    open spec fn view(&self) -> FeaturesView {
        FeaturesView {
            cells: cells_view(self.cards@),
            stock1: self.player1_dice@,
            stock2: self.player2_dice@,
            player1_moves: self.player1_moves,
            surprises1: self.player1_surprises,
            surprises2: self.player2_surprises,
        }
    }
}

impl Rules {
    /// Rules with or without fights and with or without surprises.
    pub fn new(enable_fight_move: bool, enable_surprise_move: bool) -> (r: Rules)
        ensures
            r == (Rules { enable_fight_move, enable_surprise_move }),
    {
        Rules { enable_fight_move, enable_surprise_move }
    }
}

impl Default for Rules {
    fn default() -> (r: Rules)
        ensures
            r == (Rules { enable_fight_move: true, enable_surprise_move: true }),
    {
        Rules { enable_fight_move: true, enable_surprise_move: true }
    }
}

/// The dice that the first player starts with.
pub open spec fn first_stock(rules: Rules) -> Seq<Die> {
    if rules.enable_fight_move {
        seq![
            Die { color: DiceColor::Red, value: 2 },
            Die { color: DiceColor::Red, value: 2 },
            Die { color: DiceColor::Red, value: 4 },
            Die { color: DiceColor::Red, value: 6 },
        ]
    } else {
        Seq::new(4, |i: int| Die { color: DiceColor::Red, value: 2 })
    }
}

/// The dice that the second player starts with.
pub open spec fn second_stock(rules: Rules) -> Seq<Die> {
    if rules.enable_fight_move {
        seq![
            Die { color: DiceColor::Black, value: 1 },
            Die { color: DiceColor::Black, value: 3 },
            Die { color: DiceColor::Black, value: 3 },
            Die { color: DiceColor::Black, value: 5 },
            Die { color: DiceColor::White, value: 1 },
        ]
    } else {
        Seq::new(5, |i: int| Die { color: DiceColor::Black, value: 1 })
    }
}

/// The stock that the first `n` of the dice make.
pub open spec fn stocked(dice: Seq<Die>, n: int) -> Seq<Die>
    decreases n,
{
    if n <= 0 {
        Seq::empty()
    } else {
        stock_with(stocked(dice, n - 1), dice[n - 1])
    }
}

impl Player {
    /// The dice in the player's stock, in the order of color and value.
    pub closed spec fn stock(&self) -> Seq<Die> {
        self.dice@
    }

    /// The player's name.
    pub closed spec fn called(&self) -> Seq<char> {
        self.name@
    }

    /// A player with the given name and dice. The dice are put in order.
    pub fn new(name: String, dice: &Vec<Die>) -> (p: Player)
        ensures
            p.called() == name@,
            stock_sorted(p.stock()),
            p.stock() == stocked(dice@, dice@.len() as int),
    {
        let mut p = Player { name, dice: Vec::new() };
        let n = dice.len();
        let mut i: usize = 0;
        while i < n
            invariant
                n == dice.len(),
                i <= n,
                p.called() == name@,
                stock_sorted(p.stock()),
                p.stock() == stocked(dice@, i as int),
            decreases n - i,
        {
            p.add_die(dice[i]);
            i += 1;
        }
        p
    }

    /// The first player at the start of a game.
    pub fn first(rules: &Rules) -> (p: Player)
        ensures
            p.called() == "Player 1"@,
            p.stock() == first_stock(*rules),
            stock_sorted(p.stock()),
    {
        let mut dice: Vec<Die> = Vec::new();
        if rules.enable_fight_move {
            dice.push(Die::new(DiceColor::Red, 2));
            dice.push(Die::new(DiceColor::Red, 2));
            dice.push(Die::new(DiceColor::Red, 4));
            dice.push(Die::new(DiceColor::Red, 6));
        } else {
            // No difference then, just generate 4 equal dice.
            dice.push(Die::new(DiceColor::Red, 2));
            dice.push(Die::new(DiceColor::Red, 2));
            dice.push(Die::new(DiceColor::Red, 2));
            dice.push(Die::new(DiceColor::Red, 2));
        }
        assert(dice@ =~= first_stock(*rules));
        Player { name: "Player 1".to_owned(), dice }
    }

    /// The second player at the start of a game.
    pub fn second(rules: &Rules) -> (p: Player)
        ensures
            p.called() == "Player 2"@,
            p.stock() == second_stock(*rules),
            stock_sorted(p.stock()),
    {
        let mut dice: Vec<Die> = Vec::new();
        if rules.enable_fight_move {
            dice.push(Die::new(DiceColor::Black, 1));
            dice.push(Die::new(DiceColor::Black, 3));
            dice.push(Die::new(DiceColor::Black, 3));
            dice.push(Die::new(DiceColor::Black, 5));
            dice.push(Die::new(DiceColor::White, 1));
        } else {
            // No difference then, just generate 5 equal dice.
            dice.push(Die::new(DiceColor::Black, 1));
            dice.push(Die::new(DiceColor::Black, 1));
            dice.push(Die::new(DiceColor::Black, 1));
            dice.push(Die::new(DiceColor::Black, 1));
            dice.push(Die::new(DiceColor::Black, 1));
        }
        assert(dice@ =~= second_stock(*rules));
        Player { name: "Player 2".to_owned(), dice }
    }

    /// Whether the stock holds a die equal to `die`.
    pub fn has_die(&self, die: &Die) -> (b: bool)
        requires
            stock_sorted(self.stock()),
        ensures
            b == self.stock().contains(*die),
    {
        let p = find_slot(&self.dice, die);
        p < self.dice.len() && self.dice[p] == *die
    }

    /// Takes one die equal to `die` out of the stock, if there is one.
    pub fn remove_die(&mut self, die: &Die) -> (r: Result<(), Die>)
        requires
            stock_sorted(old(self).stock()),
        ensures
            stock_sorted(final(self).stock()),
            final(self).called() == old(self).called(),
            match r {
                Ok(_) => old(self).stock().contains(*die) && final(self).stock() == stock_without(
                    old(self).stock(),
                    *die,
                ),
                Err(d) => d == *die && !old(self).stock().contains(*die) && final(self).stock()
                    == old(self).stock(),
            },
    {
        let p = find_slot(&self.dice, die);
        if p < self.dice.len() && self.dice[p] == *die {
            proof {
                lemma_stock_without(self.dice@, *die);
            }
            self.dice.remove(p);
            Ok(())
        } else {
            Err(*die)
        }
    }

    /// Puts a die into the stock, at its place in the order.
    pub fn add_die(&mut self, die: Die)
        requires
            stock_sorted(old(self).stock()),
        ensures
            stock_sorted(final(self).stock()),
            final(self).stock() == stock_with(old(self).stock(), die),
            final(self).called() == old(self).called(),
    {
        let p = find_slot(&self.dice, &die);
        proof {
            lemma_stock_with(self.dice@, die);
        }
        self.dice.insert(p, die);
    }

    /// The player's dice, in the order of color and value.
    pub fn dice(&self) -> (r: &Vec<Die>)
        ensures
            r@ == self.stock(),
    {
        &self.dice
    }

    /// The player's name.
    pub fn name(&self) -> (r: &String)
        ensures
            r@ == self.called(),
    {
        &self.name
    }
}

impl Clone for Player {
    fn clone(&self) -> (p: Player)
        ensures
            p.stock() == self.stock(),
            p.called() == self.called(),
    {
        Player { name: self.name.clone(), dice: self.dice.clone() }
    }
}

/// Whether all dice of a stack are the given player's.
fn all_belong(dice: &Vec<Die>, first: bool) -> (b: bool)
    ensures
        b == GameView::all_of(dice@, first),
{
    let n = dice.len();
    let mut i: usize = 0;
    while i < n
        invariant
            n == dice.len(),
            i <= n,
            forall|k: int| 0 <= k < i ==> (#[trigger] dice@[k]).first_players() == first,
        decreases n - i,
    {
        if dice[i].belongs_to_player1() != first {
            return false;
        }
        i += 1;
    }
    true
}

/// Whether some die of a stack is the given player's.
fn any_belongs(dice: &Vec<Die>, first: bool) -> (b: bool)
    ensures
        b == GameView::any_of(dice@, first),
{
    let n = dice.len();
    let mut i: usize = 0;
    while i < n
        invariant
            n == dice.len(),
            i <= n,
            forall|k: int| 0 <= k < i ==> (#[trigger] dice@[k]).first_players() != first,
        decreases n - i,
    {
        if dice[i].belongs_to_player1() == first {
            return true;
        }
        i += 1;
    }
    false
}

/// A fight on each of the positions.
fn fights_at(positions: &Vec<Coord>) -> (r: Vec<GameMove<Coord>>)
    ensures
        r@ == fights_on(positions@),
{
    let mut r: Vec<GameMove<Coord>> = Vec::new();
    let n = positions.len();
    let mut i: usize = 0;
    while i < n
        invariant
            n == positions.len(),
            i <= n,
            r@ == fights_on(positions@).take(i as int),
        decreases n - i,
    {
        r.push(GameMove::Fight(positions[i]));
        proof {
            fights_on(positions@).lemma_take_succ_push(i as int);
        }
        i += 1;
    }
    proof {
        fights_on(positions@).lemma_take_len();
    }
    r
}

/// The moves of the uncovered die `die` at `from` to each of the positions.
fn moves_from(positions: &Vec<Coord>, from: Coord, die: Die) -> (r: Vec<GameMove<Coord>>)
    ensures
        r@ == moves_to(positions@, (from, die)),
{
    let mut r: Vec<GameMove<Coord>> = Vec::new();
    let n = positions.len();
    let mut i: usize = 0;
    while i < n
        invariant
            n == positions.len(),
            i <= n,
            r@ == moves_to(positions@, (from, die)).take(i as int),
        decreases n - i,
    {
        r.push(GameMove::Move(die, from, positions[i]));
        proof {
            moves_to(positions@, (from, die)).lemma_take_succ_push(i as int);
        }
        i += 1;
    }
    proof {
        moves_to(positions@, (from, die)).lemma_take_len();
    }
    r
}

/// The surprises that take the card at `from` to each of the positions.
fn surprises_from(positions: &Vec<Coord>, from: Coord) -> (r: Vec<GameMove<Coord>>)
    ensures
        r@ == surprises_to(positions@, from),
{
    let mut r: Vec<GameMove<Coord>> = Vec::new();
    let n = positions.len();
    let mut i: usize = 0;
    while i < n
        invariant
            n == positions.len(),
            i <= n,
            r@ == surprises_to(positions@, from).take(i as int),
        decreases n - i,
    {
        r.push(GameMove::Surprise(from, positions[i]));
        proof {
            surprises_to(positions@, from).lemma_take_succ_push(i as int);
        }
        i += 1;
    }
    proof {
        surprises_to(positions@, from).lemma_take_len();
    }
    r
}

/// Calls `choose` of `rand::seq::SliceRandom` on the moves, with `rand`'s
/// generator of the current thread. Which move comes out is left open: it is
/// one of the moves, and none only if there is no move.
#[verifier::external_body]
fn choose_move(moves: &Vec<GameMove<Coord>>) -> (r: Option<GameMove<Coord>>)
    ensures
        match r {
            Some(m) => moves@.contains(m),
            None => moves@.len() == 0,
        },
{
    let mut rng = rand::thread_rng();
    moves.as_slice().choose(&mut rng).copied()
}

/// Whether two stacks or stocks hold the same dice in the same order.
fn same_dice(a: &Vec<Die>, b: &Vec<Die>) -> (r: bool)
    ensures
        r == (a@ == b@),
{
    if a.len() != b.len() {
        return false;
    }
    let n = a.len();
    let mut i: usize = 0;
    while i < n
        invariant
            n == a.len(),
            n == b.len(),
            i <= n,
            forall|k: int| 0 <= k < i ==> a@[k] == b@[k],
        decreases n - i,
    {
        if a[i] != b[i] {
            return false;
        }
        i += 1;
    }
    assert(a@ =~= b@);
    true
}

// Making games.
impl Game {
    /// The game as it must be: see `GameView::wf`.
    pub open spec fn wf(&self) -> bool {
        self@.wf()
    }

    /// Create a new game: the cards dealt to the layout, the players with
    /// their starting dice, the first player to move.
    pub fn new(layout: Layout, deck: Deck, rules: Rules) -> (g: Game)
        requires
            layout.wf(),
            deck@.len() == layout.positions().len(),
        ensures
            g.wf(),
            g@.board.grid == layout.grid(),
            g@.board.cells == dealt(layout.positions(), deck@, deck@.len() as int),
            forall|k: int|
                0 <= k < deck@.len() ==> g@.board.has(#[trigger] layout.positions()[k])
                    && g@.board.card(layout.positions()[k]) == CardView::empty(deck@[k]),
            g.board.layout == layout,
            g@.board.layout == layout@,
            g@.rules == rules,
            g@.name1 == "Player 1"@,
            g@.name2 == "Player 2"@,
            g@.stock1 == first_stock(rules),
            g@.stock2 == second_stock(rules),
            g@.player1_moves,
            g@.surprises1 == 0,
            g@.surprises2 == 0,
            g@.result == GameResult::InProgress,
            g@.history == Seq::<GameMove<Coord>>::empty(),
    {
        let g = Game {
            board: Board::new(layout, deck),
            rules,
            player1: Player::first(&rules),
            player2: Player::second(&rules),
            player1_moves: true,
            player1_surprises: 0,
            player2_surprises: 0,
            result: GameResult::InProgress,
            history: Vec::new(),
        };
        proof {
            lemma_bare_board(g@.board, 0);
        }
        g
    }

    /// A game made of its parts, as they were taken from a game before: a
    /// valid board, the rules, the players, whose turn it is, the surprises
    /// used, the result and the moves played.
    pub fn from_parts(
        board: Board,
        rules: Rules,
        player1: Player,
        player2: Player,
        player1_moves: bool,
        surprises: (u8, u8),
        result: GameResult,
        history: Vec<GameMove<Coord>>,
    ) -> (r: Result<Game, InvalidGame>)
        requires
            board.wf(),
            stock_sorted(player1.stock()),
            stock_sorted(player2.stock()),
        ensures
            match r {
                Ok(g) => g.wf() && g@ == (GameView {
                    board: board@,
                    rules,
                    name1: player1.called(),
                    name2: player2.called(),
                    stock1: player1.stock(),
                    stock2: player2.stock(),
                    player1_moves,
                    surprises1: surprises.0,
                    surprises2: surprises.1,
                    result,
                    history: history@,
                }),
                Err(e) => e == if surprises.0 > 1 || surprises.1 > 1 {
                    InvalidGame::TooManySurprises
                } else {
                    InvalidGame::FinishedOnBoard
                } && (surprises.0 > 1 || surprises.1 > 1 || (result == GameResult::InProgress
                    && board@.stack_result() != GameResult::InProgress) || (result
                    == GameResult::InProgress && board@.stack_result() == GameResult::InProgress
                    && board@.row_result() != GameResult::InProgress)),
            },
    {
        if surprises.0 > 1 || surprises.1 > 1 {
            return Err(InvalidGame::TooManySurprises);
        }
        let game = Game {
            board,
            rules,
            player1,
            player2,
            player1_moves,
            player1_surprises: surprises.0,
            player2_surprises: surprises.1,
            result,
            history,
        };
        if result == GameResult::InProgress && game.result_without_no_moves()
            != GameResult::InProgress {
            return Err(InvalidGame::FinishedOnBoard);
        }
        Ok(game)
    }
}

// Looking at the game.
impl Game {
    /// The player to move.
    pub fn current_player(&self) -> (p: &Player)
        ensures
            p.stock() == self@.stock(self.player1_moves),
            p.called() == self@.name(self.player1_moves),
    {
        if self.player1_moves {
            &self.player1
        } else {
            &self.player2
        }
    }

    /// The player to move, to be changed.
    pub fn current_player_mut(&mut self) -> (p: &mut Player)
        ensures
            p.stock() == old(self)@.stock(old(self).player1_moves),
            p.called() == old(self)@.name(old(self).player1_moves),
            final(self)@ == old(self)@.with_stock(
                old(self).player1_moves,
                final(p).stock(),
            ).with_name(old(self).player1_moves, final(p).called()),
            final(self).board == old(self).board,
    {
        if self.player1_moves {
            &mut self.player1
        } else {
            &mut self.player2
        }
    }

    /// The player whose dice are the red ones, or the other one.
    pub fn player(&self, first: bool) -> (p: &Player)
        ensures
            p.stock() == self@.stock(first),
            p.called() == self@.name(first),
    {
        if first {
            &self.player1
        } else {
            &self.player2
        }
    }

    /// The number of surprises that the player to move has used.
    pub fn current_player_surprises(&self) -> (n: u8)
        ensures
            n == self@.surprises(self.player1_moves),
    {
        if self.player1_moves {
            self.player1_surprises
        } else {
            self.player2_surprises
        }
    }

    /// Number of ply (semi-move) to be played. Starts from zero.
    pub fn ply_to_be_played(&self) -> (n: usize)
        ensures
            n == self@.history.len(),
    {
        self.history.len()
    }

    /// Returns if the game is over.
    pub fn is_game_over(&self) -> (b: bool)
        ensures
            b == (self@.result != GameResult::InProgress),
    {
        self.result != GameResult::InProgress
    }

    /// Returns "defining features" of the game which can be used to check if
    /// the same position repeats again and again.
    pub fn defining_features(&self) -> (f: GameFeatures)
        ensures
            f@ == self@.features(),
    {
        let board = self.board.clone();
        let f = GameFeatures {
            cards: board.cards,
            player1_dice: self.player1.dice().clone(),
            player2_dice: self.player2.dice().clone(),
            player1_moves: self.player1_moves,
            player1_surprises: self.player1_surprises,
            player2_surprises: self.player2_surprises,
        };
        assert(f@.cells =~= self@.features().cells);
        f
    }
}

// Validating moves.
impl Game {
    /// The verdict on a move, were it the given player's turn.
    pub fn validate_for(&self, first: bool, game_move: &GameMove<Coord>) -> (r: Result<
        (),
        ValidationError,
    >)
        requires
            self@.consistent(),
        ensures
            r == self@.validation(first, *game_move),
    {
        if self.result != GameResult::InProgress {
            return Err(ValidationError::GameOver);
        }
        match game_move {
            GameMove::Place(die, coord) => {
                if !self.player(first).has_die(die) {
                    return Err(ValidationError::NoSuchDie);
                }
                if !self.board.has_empty_card_at(coord) {
                    return Err(ValidationError::TargetNotEmpty);
                }
                Ok(())
            },
            GameMove::Move(die, from, to) => {
                // - the `die` on the card `from` is not covered,
                // - the `die` has to belong to the current player,
                // - card `to` is of a different kind than card `from`,
                // - if card `to` has two dice they must be of current players' color.
                match (self.board.card_at(from), self.board.card_at(to)) {
                    (Some(card), Some(target_card)) => {
                        match card.top_die() {
                            None => Err(ValidationError::NoDieToMove),
                            Some(top_die) => {
                                if *top_die != *die {
                                    Err(ValidationError::DieCovered)
                                } else if die.belongs_to_player1() != first {
                                    Err(ValidationError::NotYourDie)
                                } else if card.kind == target_card.kind {
                                    Err(ValidationError::SameKind)
                                } else if !(target_card.dice.len() < 2 || all_belong(
                                    &target_card.dice,
                                    first,
                                )) {
                                    Err(ValidationError::CannotCover)
                                } else {
                                    Ok(())
                                }
                            },
                        }
                    },
                    _ => Err(ValidationError::NoSuchCards),
                }
            },
            GameMove::Fight(coord) => {
                if !self.rules.enable_fight_move {
                    return Err(ValidationError::FightDisabled);
                }
                match self.board.card_at(coord) {
                    Some(card) => {
                        if card.dice.len() != 2 {
                            Err(ValidationError::NotTwoDice)
                        } else if !any_belongs(&card.dice, first) {
                            Err(ValidationError::NoneYours)
                        } else {
                            Ok(())
                        }
                    },
                    None => Err(ValidationError::NoCardToFight),
                }
            },
            GameMove::Surprise(from, to) => {
                if !self.rules.enable_surprise_move {
                    return Err(ValidationError::SurpriseDisabled);
                }
                if self.board.card_at(from).is_none() {
                    return Err(ValidationError::NoCardToMove);
                }
                if self.board.card_at(to).is_some() {
                    return Err(ValidationError::TargetOccupied);
                }
                if !self.board.admits(to) {
                    return Err(ValidationError::OffGrid);
                }
                let neighbours = self.board.neighbours_iter_without(*to, *from).len();
                if neighbours < 2 {
                    return Err(ValidationError::TooFewNeighbours);
                }
                let number_of_surprises = if first {
                    self.player1_surprises
                } else {
                    self.player2_surprises
                };
                if number_of_surprises >= 1 {
                    return Err(ValidationError::SurpriseUsed);
                }
                Ok(())
            },
            GameMove::Submit => Ok(()),
        }
    }

    /// Validates a given move in this particular game state, gives the
    /// reason if not valid, otherwise returns ().
    pub fn validate_move(&self, game_move: &GameMove<Coord>) -> (r: Result<(), ValidationError>)
        requires
            self@.consistent(),
        ensures
            r == self@.validation(self.player1_moves, *game_move),
            r is Ok <==> self@.legal(*game_move),
    {
        self.validate_for(self.player1_moves, game_move)
    }
}

// Finding the result.
impl Game {
    /// The winner by three dice in a stack, if there is one.
    pub fn three_in_stack(&self) -> (r: GameResult)
        ensures
            r == self@.board.stack_result(),
    {
        let n = self.board.cards.len();
        let ghost cells = self@.board.cells;
        let mut i: usize = 0;
        while i < n
            invariant
                n == self.board.cards.len(),
                i <= n,
                cells == self@.board.cells,
                stack_result_from(cells, 0) == stack_result_from(cells, i as int),
            decreases n - i,
        {
            let card = &self.board.cards[i].1;
            assert(cells[i as int].1.dice == card.dice@);
            if card.dice.len() > 2 {
                if card.dice[0].belongs_to_player1() {
                    return GameResult::FirstPlayerWon;
                } else {
                    return GameResult::SecondPlayerWon;
                }
            }
            i += 1;
        }
        GameResult::InProgress
    }

    /// The winner by three uncovered dice in a row, if there is one.
    pub fn three_in_a_row(&self) -> (r: GameResult)
        requires
            self.board.wf(),
        ensures
            r == self@.board.row_result(),
    {
        let n = self.board.adj_triples.len();
        let ghost b = self@.board;
        let mut i: usize = 0;
        while i < n
            invariant
                n == self.board.adj_triples.len(),
                i <= n,
                b == self@.board,
                self.board.wf(),
                b.row_result_from(0) == b.row_result_from(i as int),
            decreases n - i,
        {
            let tri = self.board.adj_triples[i];
            let die1 = self.board.top_die_at(&tri.0);
            let die2 = self.board.top_die_at(&tri.1);
            let die3 = self.board.top_die_at(&tri.2);
            match (die1, die2, die3) {
                (Some(die1), Some(die2), Some(die3)) => {
                    if die1.belongs_to_player1() && die2.belongs_to_player1()
                        && die3.belongs_to_player1() {
                        return GameResult::FirstPlayerWon;
                    } else if !die1.belongs_to_player1() && !die2.belongs_to_player1()
                        && !die3.belongs_to_player1() {
                        return GameResult::SecondPlayerWon;
                    }
                },
                _ => {},
            }
            i += 1;
        }
        GameResult::InProgress
    }

    /// The result as far as the board shows it.
    pub fn result_without_no_moves(&self) -> (r: GameResult)
        requires
            self.board.wf(),
        ensures
            r == self@.result_without_no_moves(),
    {
        // "Three in Stack" condition.
        let three_in_stack = self.three_in_stack();
        if three_in_stack != GameResult::InProgress {
            return three_in_stack;
        }
        // "Three in a Row" condition.
        self.three_in_a_row()
    }

    /// Whether one of the candidates is valid for the given player.
    fn any_valid(&self, first: bool, candidates: &Vec<GameMove<Coord>>) -> (b: bool)
        requires
            self@.consistent(),
        ensures
            b == (candidates@.filter(self@.legal_test(first)).len() > 0),
    {
        let ghost test = self@.legal_test(first);
        let n = candidates.len();
        let mut i: usize = 0;
        while i < n
            invariant
                n == candidates.len(),
                i <= n,
                self@.consistent(),
                test == self@.legal_test(first),
                forall|k: int| 0 <= k < i ==> !test(#[trigger] candidates@[k]),
            decreases n - i,
        {
            if self.validate_for(first, &candidates[i]).is_ok() {
                proof {
                    lemma_filter_some(candidates@, test, i as int);
                }
                return true;
            }
            i += 1;
        }
        proof {
            lemma_filter_none(candidates@, test);
        }
        false
    }

    /// Whether the generator proposes any move for the given player. The
    /// search ends with the first move that is found.
    pub fn has_moves(&self, first: bool) -> (b: bool)
        requires
            self@.consistent(),
        ensures
            b == (self@.moves_for(first).len() > 0),
    {
        let ghost g = self@;
        let ghost places = GameView::place_moves(g.board.empties(), g.dice_to_place(first));

        let stock = self.player(first).dice();
        let empties = self.board.empty_cards_iter();
        proof {
            let dice = g.dice_to_place(first);
            let spots = g.board.empties();
            assert(spots.len() == empties@.len()) by {
                assert(refs_view(empties@).len() == empties@.len());
            }
            if g.rules.enable_fight_move {
                if stock@.len() > 0 {
                    assert(stock@.contains(stock@[0]));
                    lemma_distinct_covers(stock@, stock@[0]);
                } else {
                    lemma_distinct_within(stock@);
                }
            }
            assert((dice.len() > 0) == (stock@.len() > 0));
            if stock@.len() > 0 && spots.len() > 0 {
                assert(placings(dice)(spots[0]).len() == dice.len());
                lemma_flat_map_some(spots, placings(dice), 0);
            } else {
                assert forall|i: int| 0 <= i < spots.len() implies (#[trigger] placings(dice)(
                    spots[i],
                )).len() == 0 by {
                    assert(placings_at(dice, spots[i]).len() == dice.len());
                }
                lemma_flat_map_none(spots, placings(dice));
            }
        }
        if stock.len() > 0 && empties.len() > 0 {
            return true;
        }
        assert(places.len() == 0);

        let keys = self.board.coords_iter();
        if self.rules.enable_fight_move {
            let candidates = fights_at(&keys);
            if self.any_valid(first, &candidates) {
                return true;
            }
        }
        assert(g.fight_moves(first).len() == 0);

        let active_dice = self.board.active_dice_iter(first);
        let ghost mover = g.mover(first);
        let n = active_dice.len();
        let mut i: usize = 0;
        while i < n
            invariant
                n == active_dice.len(),
                i <= n,
                self@ == g,
                g.consistent(),
                keys@ == g.board.keys(),
                active_dice@ == g.board.actives(first),
                mover == g.mover(first),
                places.len() == 0,
                places == GameView::place_moves(g.board.empties(), g.dice_to_place(first)),
                g.fight_moves(first).len() == 0,
                forall|k: int| 0 <= k < i ==> (#[trigger] mover(active_dice@[k])).len() == 0,
            decreases n - i,
        {
            let (from, die) = active_dice[i];
            let candidates = moves_from(&keys, from, die);
            assert(mover(active_dice@[i as int]) == g.moves_of_die(first, (from, die)));
            if self.any_valid(first, &candidates) {
                proof {
                    lemma_flat_map_some(active_dice@, mover, i as int);
                }
                return true;
            }
            i += 1;
        }
        proof {
            lemma_flat_map_none(active_dice@, mover);
        }
        assert(g.move_moves(first).len() == 0);

        let used = if first {
            self.player1_surprises
        } else {
            self.player2_surprises
        };
        if self.rules.enable_surprise_move && used == 0 {
            let targets = self.board.surprise_targets();
            let ghost surpriser = g.surpriser(first);
            let n = keys.len();
            let mut i: usize = 0;
            while i < n
                invariant
                    n == keys.len(),
                    i <= n,
                    self@ == g,
                    g.consistent(),
                    keys@ == g.board.keys(),
                    targets@ == g.board.targets(),
                    surpriser == g.surpriser(first),
                    g.rules.enable_surprise_move && g.surprises(first) == 0,
                    places.len() == 0,
                    places == GameView::place_moves(g.board.empties(), g.dice_to_place(first)),
                    g.fight_moves(first).len() == 0,
                    g.move_moves(first).len() == 0,
                    forall|k: int| 0 <= k < i ==> (#[trigger] surpriser(keys@[k])).len() == 0,
                decreases n - i,
            {
                let from = keys[i];
                let candidates = surprises_from(&targets, from);
                assert(surpriser(keys@[i as int]) == g.surprises_of(first, from));
                if self.any_valid(first, &candidates) {
                    proof {
                        lemma_flat_map_some(keys@, surpriser, i as int);
                    }
                    return true;
                }
                i += 1;
            }
            proof {
                lemma_flat_map_none(keys@, surpriser);
            }
        }
        assert(g.surprise_moves(first).len() == 0);
        false
    }

    /// The result for the given player: a loss, if the player has no move.
    pub fn no_moves(&self, first: bool) -> (r: GameResult)
        requires
            self@.consistent(),
        ensures
            r == if self@.moves_for(first).len() > 0 {
                GameResult::InProgress
            } else {
                loss_of(first)
            },
    {
        if self.has_moves(first) {
            GameResult::InProgress
        } else if first {
            GameResult::SecondPlayerWon
        } else {
            GameResult::FirstPlayerWon
        }
    }

    /// Calculates the game result of a particular game state by checking the
    /// two victory conditions on the board ("three-in-a-stack" and
    /// "three-in-a-row") and then whether the player who moves next has a
    /// move at all.
    pub fn result(&self) -> (r: GameResult)
        requires
            self@.consistent(),
        ensures
            r == self@.full_result(),
    {
        let on_board = self.result_without_no_moves();
        if on_board != GameResult::InProgress {
            return on_board;
        }
        // "No moves" condition.
        self.no_moves(!self.player1_moves)
    }
}

// Generating moves.
impl Game {
    /// Appends the candidates that are valid for the given player.
    fn push_valid(
        &self,
        first: bool,
        candidates: &Vec<GameMove<Coord>>,
        moves: &mut Vec<GameMove<Coord>>,
    )
        requires
            self@.consistent(),
        ensures
            final(moves)@ == old(moves)@ + candidates@.filter(self@.legal_test(first)),
    {
        let ghost base = moves@;
        let ghost test = self@.legal_test(first);
        let n = candidates.len();
        let mut i: usize = 0;
        assert(candidates@.take(0).filter(test) =~= Seq::<GameMove<Coord>>::empty());
        while i < n
            invariant
                n == candidates.len(),
                i <= n,
                self@.consistent(),
                test == self@.legal_test(first),
                moves@ == base + candidates@.take(i as int).filter(test),
            decreases n - i,
        {
            let candidate = candidates[i];
            proof {
                candidates@.lemma_take_succ_push(i as int);
                candidates@.take(i as int).lemma_filter_push(candidate, test);
            }
            if self.validate_for(first, &candidate).is_ok() {
                moves.push(candidate);
            }
            i += 1;
        }
        proof {
            candidates@.lemma_take_len();
        }
    }

    /// The dice that the generator places for a player.
    fn dice_to_place(&self, first: bool) -> (r: Vec<Die>)
        ensures
            r@ == self@.dice_to_place(first),
    {
        let stock = self.player(first).dice();
        if self.rules.enable_fight_move {
            distinct_dice(stock)
        } else {
            let mut r: Vec<Die> = Vec::new();
            if stock.len() > 0 {
                r.push(stock[0]);
            }
            assert(r@ =~= self@.dice_to_place(first));
            r
        }
    }

    /// The moves that the generator proposes for the given player.
    pub fn moves_of(&self, first: bool) -> (moves: Vec<GameMove<Coord>>)
        requires
            self@.consistent(),
        ensures
            moves@ == self@.moves_for(first),
    {
        let mut moves: Vec<GameMove<Coord>> = Vec::with_capacity(32);
        let ghost g = self@;

        let empties = self.board.empty_cards_iter();
        let dice = self.dice_to_place(first);
        let ghost spots = g.board.empties();
        let ghost place = placings(dice@);
        let n = empties.len();
        let mut i: usize = 0;
        assert(refs_view(empties@).len() == n);
        assert(spots.take(0).flat_map(place) =~= Seq::<GameMove<Coord>>::empty());
        while i < n
            invariant
                n == empties.len(),
                i <= n,
                spots == g.board.empties(),
                spots.len() == n,
                refs_view(empties@) == g.board.empty_cells(),
                place == placings(dice@),
                moves@ == spots.take(i as int).flat_map(place),
            decreases n - i,
        {
            let coord = empties[i].0;
            assert(spots[i as int] == coord) by {
                assert(refs_view(empties@)[i as int].0 == empties@[i as int].0);
            }
            let ghost base = moves@;
            let ghost here = placings_at(dice@, coord);
            let m = dice.len();
            let mut j: usize = 0;
            assert(here.take(0) =~= Seq::<GameMove<Coord>>::empty());
            while j < m
                invariant
                    m == dice.len(),
                    j <= m,
                    here == placings_at(dice@, coord),
                    moves@ == base + here.take(j as int),
                decreases m - j,
            {
                moves.push(GameMove::Place(dice[j], coord));
                proof {
                    here.lemma_take_succ_push(j as int);
                    assert(moves@ =~= base + here.take(j + 1));
                }
                j += 1;
            }
            proof {
                here.lemma_take_len();
                spots.lemma_flat_map_take_append(place, i as int);
            }
            i += 1;
        }
        proof {
            spots.lemma_take_len();
        }
        let ghost placed = moves@;
        assert(placed == GameView::place_moves(g.board.empties(), g.dice_to_place(first)));

        let keys = self.board.coords_iter();
        if self.rules.enable_fight_move {
            let candidates = fights_at(&keys);
            self.push_valid(first, &candidates, &mut moves);
        } else {
            assert(moves@ =~= placed + g.fight_moves(first));
        }
        let ghost fought = moves@;
        assert(fought == placed + g.fight_moves(first));

        let active_dice = self.board.active_dice_iter(first);
        let ghost actives = g.board.actives(first);
        let ghost mover = g.mover(first);
        let n = active_dice.len();
        let mut i: usize = 0;
        assert(moves@ =~= fought + actives.take(0).flat_map(mover));
        while i < n
            invariant
                n == active_dice.len(),
                i <= n,
                self@ == g,
                g.consistent(),
                keys@ == g.board.keys(),
                active_dice@ == actives,
                actives == g.board.actives(first),
                mover == g.mover(first),
                moves@ == fought + actives.take(i as int).flat_map(mover),
            decreases n - i,
        {
            let (from, die) = active_dice[i];
            let candidates = moves_from(&keys, from, die);
            self.push_valid(first, &candidates, &mut moves);
            proof {
                actives.lemma_flat_map_take_append(mover, i as int);
                assert(mover(actives[i as int]) == g.moves_of_die(first, (from, die)));
                assert(moves@ =~= fought + actives.take(i + 1).flat_map(mover));
            }
            i += 1;
        }
        proof {
            actives.lemma_take_len();
        }
        let ghost moved = moves@;
        assert(moved == fought + g.move_moves(first));

        let used = if first {
            self.player1_surprises
        } else {
            self.player2_surprises
        };
        if self.rules.enable_surprise_move && used == 0 {
            let targets = self.board.surprise_targets();
            let ghost sources = g.board.keys();
            let ghost surpriser = g.surpriser(first);
            let n = keys.len();
            let mut i: usize = 0;
            assert(moves@ =~= moved + sources.take(0).flat_map(surpriser));
            while i < n
                invariant
                    n == keys.len(),
                    i <= n,
                    self@ == g,
                    g.consistent(),
                    keys@ == sources,
                    sources == g.board.keys(),
                    targets@ == g.board.targets(),
                    surpriser == g.surpriser(first),
                    moves@ == moved + sources.take(i as int).flat_map(surpriser),
                decreases n - i,
            {
                let from = keys[i];
                let candidates = surprises_from(&targets, from);
                self.push_valid(first, &candidates, &mut moves);
                proof {
                    sources.lemma_flat_map_take_append(surpriser, i as int);
                    assert(surpriser(sources[i as int]) == g.surprises_of(first, from));
                    assert(moves@ =~= moved + sources.take(i + 1).flat_map(surpriser));
                }
                i += 1;
            }
            proof {
                sources.lemma_take_len();
            }
        } else {
            assert(moves@ =~= moved + g.surprise_moves(first));
        }
        // Giving up is never proposed.
        moves
    }

    /// Generate all legal moves for current game position.
    pub fn generate_moves(&self) -> (moves: Vec<GameMove<Coord>>)
        requires
            self@.consistent(),
        ensures
            moves@ == self@.generated(),
    {
        if self.result != GameResult::InProgress {
            return Vec::new();
        }
        self.moves_of(self.player1_moves)
    }

    /// Returns a random move among those that the generator proposes.
    pub fn random_move(&self) -> (m: GameMove<Coord>)
        requires
            self@.consistent(),
            self@.generated().len() > 0,
        ensures
            self@.generated().contains(m),
    {
        let moves = self.generate_moves();
        match choose_move(&moves) {
            Some(m) => m,
            None => moves[0],
        }
    }
}

// Applying moves.
impl Game {
    /// Takes a die out of a player's stock.
    fn take_from_stock(&mut self, first: bool, die: &Die)
        requires
            old(self)@.consistent(),
            old(self)@.stock(first).contains(*die),
        ensures
            final(self)@ == old(self)@.with_stock(first, stock_without(old(self)@.stock(first), *die)),
            final(self)@.consistent(),
            final(self).board == old(self).board,
    {
        if first {
            let _ = self.player1.remove_die(die);
        } else {
            let _ = self.player2.remove_die(die);
        }
    }

    /// Puts a die into a player's stock.
    fn put_into_stock(&mut self, first: bool, die: Die)
        requires
            old(self)@.consistent(),
        ensures
            final(self)@ == old(self)@.with_stock(first, stock_with(old(self)@.stock(first), die)),
            final(self)@.consistent(),
            final(self).board == old(self).board,
    {
        if first {
            self.player1.add_die(die);
        } else {
            self.player2.add_die(die);
        }
    }

    /// Place: the die goes from the mover's stock onto the target card.
    fn apply_place(&mut self, die: &Die, coord: &Coord)
        requires
            old(self).wf(),
            old(self)@.legal(GameMove::Place(*die, *coord)),
        ensures
            final(self)@ == old(self)@.changed(GameMove::Place(*die, *coord)),
            final(self)@.wf(),
            final(self).board.layout == old(self).board.layout,
    {
        let ghost g = self@;
        let first = self.player1_moves;
        self.take_from_stock(first, die);
        // Add the die to the card.
        self.board.push_die(coord, *die);
        self.result = self.result();
        assert(self@ =~~= g.changed(GameMove::Place(*die, *coord)));
    }

    /// Move: the uncovered die of one card goes onto another card.
    fn apply_shift(&mut self, named: &Die, from: &Coord, to: &Coord)
        requires
            old(self).wf(),
            old(self)@.legal(GameMove::Move(*named, *from, *to)),
        ensures
            final(self)@ == old(self)@.changed(GameMove::Move(*named, *from, *to)),
            final(self)@.wf(),
            final(self).board.layout == old(self).board.layout,
    {
        let ghost g = self@;
        let die = self.board.pop_die(from);
        proof {
            g.board.lemma_with_card(*from, g.board.card(*from).popped());
        }
        // The three-in-a-row victory condition is checked at once, while the
        // die is in flight. If it holds, the result stands and the move is
        // completed all the same.
        let intermediate_result = self.three_in_a_row();
        self.board.push_die(to, die);
        if intermediate_result != GameResult::InProgress {
            self.result = intermediate_result;
        } else {
            self.result = self.result();
        }
        assert(self@ =~~= g.changed(GameMove::Move(*named, *from, *to)));
    }

    /// Fight: the two dice of a card are compared, the winner stays, the
    /// loser goes back to its owner.
    fn apply_fight(&mut self, place: &Coord) -> (r: FightResult)
        requires
            old(self).wf(),
            old(self)@.legal(GameMove::Fight(*place)),
        ensures
            final(self)@ == old(self)@.changed(GameMove::Fight(*place)),
            final(self)@.wf(),
            Some(r) == old(self)@.fight_outcome(GameMove::Fight(*place)),
            final(self).board.layout == old(self).board.layout,
    {
        let ghost g = self@;
        let (winner, loser, swapped) = self.board.settle_fight(place);
        let losing_position = if swapped {
            ZIndex::Top
        } else {
            ZIndex::Bottom
        };
        self.put_into_stock(loser.belongs_to_player1(), loser);
        self.result = self.result();
        assert(self@ =~~= g.changed(GameMove::Fight(*place)));
        FightResult { losing_die: loser, losing_position }
    }

    /// Surprise: a card goes to a free position.
    fn apply_surprise(&mut self, from: &Coord, to: &Coord)
        requires
            old(self).wf(),
            old(self)@.legal(GameMove::Surprise(*from, *to)),
        ensures
            final(self)@ == old(self)@.changed(GameMove::Surprise(*from, *to)),
            final(self)@.wf(),
            final(self).board.layout == old(self).board.layout,
    {
        let ghost g = self@;
        self.board.relocate(from, to);
        if self.player1_moves {
            self.player1_surprises += 1;
        } else {
            self.player2_surprises += 1;
        }
        self.result = self.result();
        assert(self@ =~~= g.changed(GameMove::Surprise(*from, *to)));
    }

    /// Give up: the mover loses.
    fn apply_submit(&mut self)
        requires
            old(self).wf(),
        ensures
            final(self)@ == old(self)@.changed(GameMove::Submit),
            final(self)@.wf(),
            final(self).board.layout == old(self).board.layout,
    {
        if self.player1_moves {
            self.result = GameResult::SecondPlayerWon;
        } else {
            self.result = GameResult::FirstPlayerWon;
        }
    }

    /// Passes the turn on and records the move.
    fn pass_turn(&mut self, game_move: &GameMove<Coord>, Ghost(g): Ghost<GameView>)
        requires
            old(self).wf(),
            old(self)@ == g.changed(*game_move),
            old(self).player1_moves == g.player1_moves,
            old(self)@.history == g.history,
        ensures
            final(self).wf(),
            final(self)@ == g.apply(*game_move),
            final(self).board.layout == old(self).board.layout,
    {
        self.player1_moves = !self.player1_moves;
        self.history.push(*game_move);
        assert(self@ =~~= g.apply(*game_move));
    }

    /// Applies a move to the current game state (without validation).
    ///
    /// The move has to be valid: the generator's moves are, and so is every
    /// move that `validate_move` accepts.
    pub fn apply_move_unchecked(&mut self, game_move: &GameMove<Coord>) -> (r: Option<FightResult>)
        requires
            old(self).wf(),
            old(self)@.legal(*game_move),
        ensures
            final(self).wf(),
            final(self)@ == old(self)@.apply(*game_move),
            r == old(self)@.fight_outcome(*game_move),
            final(self).board.layout == old(self).board.layout,
    {
        let ghost g = self@;
        let mut fight_result = None;
        match game_move {
            GameMove::Place(die, coord) => {
                self.apply_place(die, coord);
            },
            GameMove::Move(die, from, to) => {
                self.apply_shift(die, from, to);
            },
            GameMove::Fight(place) => {
                fight_result = Some(self.apply_fight(place));
            },
            GameMove::Surprise(from, to) => {
                self.apply_surprise(from, to);
            },
            GameMove::Submit => {
                self.apply_submit();
            },
        };
        self.pass_turn(game_move, Ghost(g));
        fight_result
    }

    /// Applies a move to the current game state, if the move is valid.
    pub fn apply_move(&mut self, game_move: &GameMove<Coord>) -> (r: Result<
        Option<FightResult>,
        ValidationError,
    >)
        requires
            old(self).wf(),
        ensures
            final(self).wf(),
            match old(self)@.validation(old(self).player1_moves, *game_move) {
                Ok(_) => r == Ok::<Option<FightResult>, ValidationError>(
                    old(self)@.fight_outcome(*game_move),
                ) && final(self)@ == old(self)@.apply(*game_move),
                Err(e) => r == Err::<Option<FightResult>, ValidationError>(e) && final(self)@
                    == old(self)@,
            },
    {
        match self.validate_move(game_move) {
            Ok(_) => Ok(self.apply_move_unchecked(game_move)),
            Err(e) => Err(e),
        }
    }

    /// Applies a move in the user coordinates to the current game state, if
    /// its coordinates name cards and the move is valid.
    pub fn apply_user_move(&mut self, user_move: &GameMove<UserCoord>) -> (r: Result<
        Option<FightResult>,
        MoveError,
    >)
        requires
            old(self).wf(),
        ensures
            final(self).wf(),
            match old(self)@.board.move_from_user(*user_move) {
                Err(e) => r == Err::<Option<FightResult>, MoveError>(MoveError::Conversion(e))
                    && final(self)@ == old(self)@,
                Ok(m) => match old(self)@.validation(old(self).player1_moves, m) {
                    Ok(_) => r == Ok::<Option<FightResult>, MoveError>(old(self)@.fight_outcome(m))
                        && final(self)@ == old(self)@.apply(m),
                    Err(e) => r == Err::<Option<FightResult>, MoveError>(MoveError::Validation(e))
                        && final(self)@ == old(self)@,
                },
            },
    {
        match self.convert_move_coords(user_move) {
            Err(e) => Err(MoveError::Conversion(e)),
            Ok(game_move) => match self.apply_move(&game_move) {
                Ok(r) => Ok(r),
                Err(e) => Err(MoveError::Validation(e)),
            },
        }
    }

    /// Applies a move that is given as text, if it can be read, its
    /// coordinates name cards and the move is valid.
    pub fn apply_move_str(&mut self, move_str: &str) -> (r: Result<Option<FightResult>, MoveError>)
        requires
            old(self).wf(),
        ensures
            final(self).wf(),
            match move_of(move_str@) {
                None => final(self)@ == old(self)@ && r == Err::<Option<FightResult>, MoveError>(
                    MoveError::Syntax,
                ),
                Some(um) => match old(self)@.board.move_from_user(um) {
                    Err(e) => r == Err::<Option<FightResult>, MoveError>(MoveError::Conversion(e))
                        && final(self)@ == old(self)@,
                    Ok(m) => match old(self)@.validation(old(self).player1_moves, m) {
                        Ok(_) => r == Ok::<Option<FightResult>, MoveError>(
                            old(self)@.fight_outcome(m),
                        ) && final(self)@ == old(self)@.apply(m),
                        Err(e) => r == Err::<Option<FightResult>, MoveError>(
                            MoveError::Validation(e),
                        ) && final(self)@ == old(self)@,
                    },
                },
            },
    {
        match parse_move(move_str) {
            Err(_) => Err(MoveError::Syntax),
            Ok(user_move) => self.apply_user_move(&user_move),
        }
    }

    /// Convert move coordinates from `UserCoord` to `Coord`.
    pub fn convert_move_coords(&self, m: &GameMove<UserCoord>) -> (r: Result<
        GameMove<Coord>,
        ConversionError,
    >)
        requires
            self.board.wf(),
        ensures
            r == self@.board.move_from_user(*m),
    {
        self.board.convert_move_coords(m)
    }

    /// Convert move coordinates from `Coord` to `UserCoord`.
    pub fn userify_move(&self, m: &GameMove<Coord>) -> (r: GameMove<UserCoord>)
        requires
            self.board.wf(),
        ensures
            r == self@.board.move_to_user(*m),
    {
        self.board.convert_move_coords_to_user(m)
    }
}

// Taking moves back.
impl Game {
    /// Takes back a placing: the die goes from the card back to the stock.
    fn undo_place(&mut self, named: &Die, coord: &Coord)
        requires
            old(self).wf(),
            old(self)@.can_undo(GameMove::Place(*named, *coord), None),
        ensures
            final(self)@ == old(self)@.undo(GameMove::Place(*named, *coord), None),
            final(self).wf(),
            final(self).board.layout == old(self).board.layout,
    {
        let ghost g = self@;
        self.history.pop();
        self.player1_moves = !self.player1_moves;
        // Remove the die from the card.
        let die = self.board.pop_die(coord);
        // Add the die back to player's stock.
        self.put_into_stock(self.player1_moves, die);
        self.result = self.result_without_no_moves();
        assert(self@ =~~= g.undo(GameMove::Place(*named, *coord), None));
    }

    /// Takes back the move of a die: it goes back from the target to the source.
    fn undo_shift(&mut self, named: &Die, from: &Coord, to: &Coord)
        requires
            old(self).wf(),
            old(self)@.can_undo(GameMove::Move(*named, *from, *to), None),
        ensures
            final(self)@ == old(self)@.undo(GameMove::Move(*named, *from, *to), None),
            final(self).wf(),
            final(self).board.layout == old(self).board.layout,
    {
        let ghost g = self@;
        self.history.pop();
        self.player1_moves = !self.player1_moves;
        let die = self.board.pop_die(to);
        proof {
            g.board.lemma_with_card(*to, g.board.card(*to).popped());
        }
        self.board.push_die(from, die);
        self.result = self.result_without_no_moves();
        assert(self@ =~~= g.undo(GameMove::Move(*named, *from, *to), None));
    }

    /// Takes back a fight: the loser leaves its owner's stock and goes back
    /// to where it lay in the stack.
    fn undo_fight(&mut self, place: &Coord, fight_result: FightResult)
        requires
            old(self).wf(),
            old(self)@.can_undo(GameMove::Fight(*place), Some(fight_result)),
        ensures
            final(self)@ == old(self)@.undo(GameMove::Fight(*place), Some(fight_result)),
            final(self).wf(),
            final(self).board.layout == old(self).board.layout,
    {
        let ghost g = self@;
        self.history.pop();
        self.player1_moves = !self.player1_moves;
        let insertion_index: usize = match fight_result.losing_position {
            ZIndex::Top => 1,
            ZIndex::Bottom => 0,
        };
        let die = fight_result.losing_die;
        self.take_from_stock(die.belongs_to_player1(), &die);
        self.board.insert_die(place, insertion_index, die);
        self.result = self.result_without_no_moves();
        assert(self@ =~~= g.undo(GameMove::Fight(*place), Some(fight_result)));
    }

    /// Takes back a surprise: the card goes back to where it lay.
    fn undo_surprise(&mut self, from: &Coord, to: &Coord)
        requires
            old(self).wf(),
            old(self)@.can_undo(GameMove::Surprise(*from, *to), None),
        ensures
            final(self)@ == old(self)@.undo(GameMove::Surprise(*from, *to), None),
            final(self).wf(),
            final(self).board.layout == old(self).board.layout,
    {
        let ghost g = self@;
        self.history.pop();
        self.player1_moves = !self.player1_moves;
        self.board.relocate(to, from);
        if self.player1_moves {
            self.player1_surprises -= 1;
        } else {
            self.player2_surprises -= 1;
        }
        self.result = self.result_without_no_moves();
        assert(self@ =~~= g.undo(GameMove::Surprise(*from, *to), None));
    }

    /// Takes back giving up: the game goes on.
    fn undo_submit(&mut self)
        requires
            old(self).wf(),
            old(self)@.can_undo(GameMove::Submit, None),
        ensures
            final(self)@ == old(self)@.undo(GameMove::Submit, None),
            final(self).wf(),
            final(self).board.layout == old(self).board.layout,
    {
        let ghost g = self@;
        self.history.pop();
        self.player1_moves = !self.player1_moves;
        self.result = GameResult::InProgress;
        assert(self@ =~~= g.undo(GameMove::Submit, None));
    }

    /// Takes back the move that was applied last. `fight_result` is what
    /// applying the move returned.
    pub fn undo_move(&mut self, game_move: &GameMove<Coord>, fight_result: Option<FightResult>)
        requires
            old(self).wf(),
            old(self)@.can_undo(*game_move, fight_result),
        ensures
            final(self).wf(),
            final(self)@ == old(self)@.undo(*game_move, fight_result),
            final(self).board.layout == old(self).board.layout,
    {
        match game_move {
            GameMove::Place(die, coord) => {
                assert(self@.undo(*game_move, fight_result) == self@.undo(*game_move, None));
                self.undo_place(die, coord);
            },
            GameMove::Move(die, from, to) => {
                assert(self@.undo(*game_move, fight_result) == self@.undo(*game_move, None));
                self.undo_shift(die, from, to);
            },
            GameMove::Fight(place) => {
                match fight_result {
                    Some(r) => {
                        self.undo_fight(place, r);
                    },
                    None => {},
                }
            },
            GameMove::Surprise(from, to) => {
                assert(self@.undo(*game_move, fight_result) == self@.undo(*game_move, None));
                self.undo_surprise(from, to);
            },
            GameMove::Submit => {
                assert(self@.undo(*game_move, fight_result) == self@.undo(*game_move, None));
                self.undo_submit();
            },
        }
    }
}

impl Clone for Game {
    fn clone(&self) -> (g: Game)
        ensures
            g@ == self@,
    {
        let g = Game {
            board: self.board.clone(),
            rules: self.rules,
            player1: self.player1.clone(),
            player2: self.player2.clone(),
            player1_moves: self.player1_moves,
            player1_surprises: self.player1_surprises,
            player2_surprises: self.player2_surprises,
            result: self.result,
            history: copy_of(&self.history),
        };
        assert(g@ =~~= self@);
        g
    }
}

impl GameFeatures {
    /// Whether two snapshots show the same situation.
    pub fn same_as(&self, other: &GameFeatures) -> (r: bool)
        ensures
            r == (self@ == other@),
    {
        if self.player1_moves != other.player1_moves || self.player1_surprises
            != other.player1_surprises || self.player2_surprises != other.player2_surprises {
            return false;
        }
        if !same_dice(&self.player1_dice, &other.player1_dice) || !same_dice(
            &self.player2_dice,
            &other.player2_dice,
        ) {
            return false;
        }
        if self.cards.len() != other.cards.len() {
            assert(self@.cells.len() != other@.cells.len());
            return false;
        }
        let n = self.cards.len();
        let mut i: usize = 0;
        while i < n
            invariant
                n == self.cards.len(),
                n == other.cards.len(),
                i <= n,
                forall|k: int| 0 <= k < i ==> self@.cells[k] == other@.cells[k],
            decreases n - i,
        {
            let a = &self.cards[i];
            let b = &other.cards[i];
            if a.0 != b.0 || a.1.kind != b.1.kind || !same_dice(&a.1.dice, &b.1.dice) {
                assert(self@.cells[i as int] != other@.cells[i as int]);
                return false;
            }
            assert(self@.cells[i as int] =~= other@.cells[i as int]);
            i += 1;
        }
        assert(self@.cells =~= other@.cells);
        true
    }
}

} // verus!
