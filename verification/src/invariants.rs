//! Laws of every game: what no valid move changes.

use crate::board::BoardView;
use crate::card::{CardView, Die};
use crate::cells::{inserted, lemma_removed, lemma_slot_exists, slot, Cell};
use crate::coord::Coord;
use crate::game::{GameMove, GameResult};
use crate::reversal::lemma_apply_wf;
use crate::rules::{stack_result_from, GameView};
use crate::stock::{lemma_stock_with, lemma_stock_without};
use vstd::prelude::*;

verus! {

/// The number of dice on the cards.
pub open spec fn dice_on(cells: Seq<Cell>) -> nat
    decreases cells.len(),
{
    if cells.len() == 0 {
        0
    } else {
        dice_on(cells.drop_last()) + cells.last().1.dice.len()
    }
}

impl GameView {
    /// The number of dice in the game: in both stocks and on the cards.
    pub open spec fn dice_in_play(self) -> nat {
        self.stock1.len() + self.stock2.len() + dice_on(self.board.cells)
    }
}

proof fn lemma_dice_update(cells: Seq<Cell>, i: int, cell: Cell)
    requires
        0 <= i < cells.len(),
    ensures
        dice_on(cells.update(i, cell)) + cells[i].1.dice.len() == dice_on(cells)
            + cell.1.dice.len(),
    decreases cells.len(),
{
    let after = cells.update(i, cell);
    if i < cells.len() - 1 {
        assert(after.drop_last() =~= cells.drop_last().update(i, cell));
        lemma_dice_update(cells.drop_last(), i, cell);
    } else {
        assert(after.drop_last() =~= cells.drop_last());
    }
}

proof fn lemma_dice_remove(cells: Seq<Cell>, i: int)
    requires
        0 <= i < cells.len(),
    ensures
        dice_on(cells.remove(i)) + cells[i].1.dice.len() == dice_on(cells),
    decreases cells.len(),
{
    let after = cells.remove(i);
    if i < cells.len() - 1 {
        assert(after.drop_last() =~= cells.drop_last().remove(i));
        assert(after.last() == cells.last());
        lemma_dice_remove(cells.drop_last(), i);
    } else {
        assert(after =~= cells.drop_last());
    }
}

proof fn lemma_dice_insert(cells: Seq<Cell>, p: int, cell: Cell)
    requires
        0 <= p <= cells.len(),
    ensures
        dice_on(cells.insert(p, cell)) == dice_on(cells) + cell.1.dice.len(),
    decreases cells.len(),
{
    let after = cells.insert(p, cell);
    if p < cells.len() {
        assert(after.drop_last() =~= cells.drop_last().insert(p, cell));
        assert(after.last() == cells.last());
        lemma_dice_insert(cells.drop_last(), p, cell);
    } else {
        assert(after.drop_last() =~= cells);
    }
}

/// What another card at an occupied position does to the number of dice on
/// the board.
proof fn lemma_dice_with_card(b: BoardView, c: Coord, card: CardView)
    requires
        b.has(c),
    ensures
        dice_on(b.with_card(c, card).cells) + b.card(c).dice.len() == dice_on(b.cells)
            + card.dice.len(),
{
    lemma_dice_update(b.cells, b.index_of(c), (b.cells[b.index_of(c)].0, card));
}

/// No die is made and none is lost: a valid move leaves the number of dice
/// in both stocks and on the cards as it was.
pub proof fn lemma_dice_conserved(g: GameView, m: GameMove<Coord>)
    requires
        g.wf(),
        g.legal(m),
    ensures
        g.apply(m).dice_in_play() == g.dice_in_play(),
{
    let first = g.player1_moves;
    match m {
        GameMove::Place(die, coord) => {
            lemma_dice_with_card(g.board, coord, g.board.card(coord).pushed(die));
            lemma_stock_without(g.stock(first), die);
        },
        GameMove::Move(die, from, to) => {
            let lifted = g.board.with_card(from, g.board.card(from).popped());
            g.board.lemma_with_card(from, g.board.card(from).popped());
            lemma_dice_with_card(g.board, from, g.board.card(from).popped());
            lemma_dice_with_card(lifted, to, lifted.card(to).pushed(die));
        },
        GameMove::Fight(place) => {
            let card = g.board.card(place);
            let f = g.fight_at(place);
            let after = CardView {
                kind: card.kind,
                dice: card.dice.drop_last().drop_last().push(f.0),
            };
            lemma_dice_with_card(g.board, place, after);
            lemma_stock_with(g.stock(f.1.first_players()), f.1);
        },
        GameMove::Surprise(from, to) => {
            let i = g.board.index_of(from);
            let rest = g.board.cells.remove(i);
            let cell = (to, g.board.cells[i].1);
            lemma_removed(g.board.cells, i);
            lemma_slot_exists(rest, to);
            lemma_dice_remove(g.board.cells, i);
            lemma_dice_insert(rest, slot(rest, to), cell);
            assert(g.apply(m).board.cells == inserted(rest, cell));
        },
        GameMove::Submit => {},
    }
}

/// The turn passes on with every move, giving up included, and the move is
/// the last of the history.
pub proof fn lemma_turns_alternate(g: GameView, m: GameMove<Coord>)
    ensures
        g.apply(m).player1_moves == !g.player1_moves,
        g.apply(m).history.len() == g.history.len() + 1,
        g.apply(m).history.last() == m,
        g.apply(m).rules == g.rules,
{
}

/// While a game is in progress no card holds more than two dice.
pub proof fn lemma_stacks_in_progress(g: GameView, i: int)
    requires
        g.wf(),
        g.result == GameResult::InProgress,
        0 <= i < g.board.cells.len(),
    ensures
        g.board.cells[i].1.dice.len() <= 2,
{
    lemma_no_stack_from(g.board.cells, 0, i);
}

proof fn lemma_no_stack_from(cells: Seq<Cell>, from: int, i: int)
    requires
        0 <= from <= i < cells.len(),
        stack_result_from(cells, from) == GameResult::InProgress,
    ensures
        cells[i].1.dice.len() <= 2,
    decreases i - from,
{
    if from < i {
        lemma_no_stack_from(cells, from + 1, i);
    }
}

proof fn lemma_stacks_after_place(g: GameView, die: Die, coord: Coord, i: int)
    requires
        g.wf(),
        g.legal(GameMove::Place(die, coord)),
        0 <= i < g.board.cells.len(),
    ensures
        g.apply(GameMove::Place(die, coord)).board.cells.len() == g.board.cells.len(),
        g.apply(GameMove::Place(die, coord)).board.cells[i].1.dice.len() <= 3,
{
    lemma_stacks_in_progress(g, i);
    lemma_stacks_in_progress(g, g.board.index_of(coord));
}

proof fn lemma_stacks_after_shift(
    g: GameView,
    die: Die,
    from: Coord,
    to: Coord,
    i: int,
)
    requires
        g.wf(),
        g.legal(GameMove::Move(die, from, to)),
        0 <= i < g.board.cells.len(),
    ensures
        g.apply(GameMove::Move(die, from, to)).board.cells.len() == g.board.cells.len(),
        g.apply(GameMove::Move(die, from, to)).board.cells[i].1.dice.len() <= 3,
{
    let lifted = g.board.with_card(from, g.board.card(from).popped());
    g.board.lemma_with_card(from, g.board.card(from).popped());
    lemma_stacks_in_progress(g, i);
    lemma_stacks_in_progress(g, g.board.index_of(from));
    lemma_stacks_in_progress(g, g.board.index_of(to));
    assert(lifted.index_of(to) == g.board.index_of(to));
}

proof fn lemma_stacks_after_fight(g: GameView, place: Coord, i: int)
    requires
        g.wf(),
        g.legal(GameMove::Fight(place)),
        0 <= i < g.board.cells.len(),
    ensures
        g.apply(GameMove::Fight(place)).board.cells.len() == g.board.cells.len(),
        g.apply(GameMove::Fight(place)).board.cells[i].1.dice.len() <= 3,
{
    lemma_stacks_in_progress(g, i);
}

proof fn lemma_stacks_after_surprise(g: GameView, from: Coord, to: Coord, i: int)
    requires
        g.wf(),
        g.legal(GameMove::Surprise(from, to)),
        0 <= i < g.board.cells.len(),
    ensures
        g.apply(GameMove::Surprise(from, to)).board.cells.len() == g.board.cells.len(),
        g.apply(GameMove::Surprise(from, to)).board.cells[i].1.dice.len() <= 3,
{
    let cells = g.board.cells;
    let after = g.board.relocated(from, to).cells;
    let j = g.board.index_of(from);
    let rest = cells.remove(j);
    lemma_removed(cells, j);
    lemma_slot_exists(rest, to);
    let p = slot(rest, to);
    assert(after == rest.insert(p, (to, cells[j].1)));
    lemma_stacks_in_progress(g, j);
    if i < p {
        assert(after[i] == rest[i]);
    } else if i > p {
        assert(after[i] == rest[i - 1]);
    }
    if i != p {
        let r = if i < p { i } else { i - 1 };
        let q = if r < j { r } else { r + 1 };
        assert(rest[r] == cells[q]);
        lemma_stacks_in_progress(g, q);
    }
}

/// After a valid move the board has as many cards as before, none of them
/// with more than three dice, and each player has used at most one surprise.
pub proof fn lemma_stacks_after_move(g: GameView, m: GameMove<Coord>, i: int)
    requires
        g.wf(),
        g.legal(m),
        0 <= i < g.board.cells.len(),
    ensures
        g.apply(m).board.cells.len() == g.board.cells.len(),
        g.apply(m).board.cells[i].1.dice.len() <= 3,
        g.apply(m).surprises1 <= 1,
        g.apply(m).surprises2 <= 1,
{
    lemma_apply_wf(g, m);
    match m {
        GameMove::Place(die, coord) => {
            lemma_stacks_after_place(g, die, coord, i);
        },
        GameMove::Move(die, from, to) => {
            lemma_stacks_after_shift(g, die, from, to, i);
        },
        GameMove::Fight(place) => {
            lemma_stacks_after_fight(g, place, i);
        },
        GameMove::Surprise(from, to) => {
            lemma_stacks_after_surprise(g, from, to, i);
        },
        GameMove::Submit => {
            lemma_stacks_in_progress(g, i);
        },
    }
}

} // verus!
