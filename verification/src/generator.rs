//! Laws of the move generator: it proposes the valid moves.

use crate::board::BoardView;
use crate::card::Die;
use crate::cells::{active_test, empty_test, lemma_extent_bounds, near_test};
use crate::coord::Coord;
use crate::game::{GameMove, GameResult};
use crate::grid::{column, column_at, held, span};
use crate::rules::{fights_on, moves_to, placings, placings_at, surprises_to, GameView};
use crate::sequences::{lemma_filter_contains, lemma_flat_map_contains, lemma_map_contains};
use crate::stock::{distinct, lemma_distinct_covers, lemma_distinct_within};
use vstd::prelude::*;
use vstd::seq_lib::lemma_seq_concat_contains_all_elements;

verus! {

/// What a placing among the generator's placings is made of: a die that the
/// generator places and the position of a card without dice.
proof fn lemma_place_parts(g: GameView, first: bool, m: GameMove<Coord>)
    requires
        GameView::place_moves(g.board.empties(), g.dice_to_place(first)).contains(m),
    ensures
        exists|i: int, j: int|
            0 <= i < g.board.empties().len() && 0 <= j < g.dice_to_place(first).len() && m
                == GameMove::Place(
                #[trigger] g.dice_to_place(first)[j],
                #[trigger] g.board.empties()[i],
            ),
{
    let spots = g.board.empties();
    let dice = g.dice_to_place(first);
    lemma_flat_map_contains(spots, placings(dice), m);
    let i = choose|i: int| 0 <= i < spots.len() && (#[trigger] placings(dice)(spots[i])).contains(m);
    let here = placings_at(dice, spots[i]);
    assert(here.contains(m));
    let k = choose|k: int| 0 <= k < here.len() && here[k] == m;
    assert(m == GameMove::Place(dice[k], spots[i]));
}

/// The generator's placings are valid while the game is in progress.
proof fn lemma_places_sound(g: GameView, first: bool, m: GameMove<Coord>)
    requires
        g.consistent(),
        g.result == GameResult::InProgress,
        GameView::place_moves(g.board.empties(), g.dice_to_place(first)).contains(m),
    ensures
        g.legal_for(first, m),
        m is Place,
{
    let spots = g.board.empties();
    let dice = g.dice_to_place(first);
    lemma_place_parts(g, first, m);
    let (i, j) = choose|i: int, j: int|
        0 <= i < spots.len() && 0 <= j < dice.len() && m == GameMove::Place(
            #[trigger] dice[j],
            #[trigger] spots[i],
        );
    let stock = g.stock(first);
    if g.rules.enable_fight_move {
        lemma_distinct_within(stock);
        assert(stock.contains(distinct(stock)[j]));
    } else {
        assert(stock[0] == dice[j]);
    }
    let bare = g.board.empty_cells();
    let cell = bare[i];
    assert(spots[i] == cell.0);
    g.board.cells.lemma_filter_pred(empty_test(), i);
    assert(bare.contains(cell));
    lemma_filter_contains(g.board.cells, empty_test(), cell);
    let k = choose|k: int| 0 <= k < g.board.cells.len() && g.board.cells[k] == cell;
    g.board.lemma_index(cell.0, k);
}

/// Every move that the generator proposes for a player is valid for that
/// player while the game is in progress, and none is giving up.
pub proof fn lemma_moves_for_sound(g: GameView, first: bool, m: GameMove<Coord>)
    requires
        g.consistent(),
        g.result == GameResult::InProgress,
        g.moves_for(first).contains(m),
    ensures
        g.legal_for(first, m),
        m != GameMove::<Coord>::Submit,
{
    let test = g.legal_test(first);
    let places = GameView::place_moves(g.board.empties(), g.dice_to_place(first));
    let fights = g.fight_moves(first);
    let moves = g.move_moves(first);
    let surprises = g.surprise_moves(first);
    let all = g.moves_for(first);
    let k = choose|k: int| 0 <= k < all.len() && all[k] == m;
    if k < places.len() {
        assert(places[k] == m);
        lemma_places_sound(g, first, m);
    } else if k < places.len() + fights.len() {
        assert(fights[k - places.len()] == m);
        lemma_filter_contains(fights_on(g.board.keys()), test, m);
        lemma_map_contains(g.board.keys(), |c: Coord| GameMove::Fight(c), m);
    } else if k < places.len() + fights.len() + moves.len() {
        assert(moves[k - places.len() - fights.len()] == m);
        let actives = g.board.actives(first);
        lemma_flat_map_contains(actives, g.mover(first), m);
        let i = choose|i: int|
            0 <= i < actives.len() && (#[trigger] g.mover(first)(actives[i])).contains(m);
        let a = actives[i];
        assert(g.moves_of_die(first, a).contains(m));
        lemma_filter_contains(moves_to(g.board.keys(), a), test, m);
        lemma_map_contains(g.board.keys(), |to: Coord| GameMove::Move(a.1, a.0, to), m);
    } else {
        assert(surprises[k - places.len() - fights.len() - moves.len()] == m);
        let sources = g.board.keys();
        lemma_flat_map_contains(sources, g.surpriser(first), m);
        let i = choose|i: int|
            0 <= i < sources.len() && (#[trigger] g.surpriser(first)(sources[i])).contains(m);
        let from = sources[i];
        assert(g.surprises_of(first, from).contains(m));
        lemma_filter_contains(surprises_to(g.board.targets(), from), test, m);
        lemma_map_contains(g.board.targets(), |to: Coord| GameMove::Surprise(from, to), m);
    }
}

/// Every move that the generator proposes in a position is valid there, and
/// none is giving up.
pub proof fn lemma_generated_are_legal(g: GameView, m: GameMove<Coord>)
    requires
        g.consistent(),
        g.generated().contains(m),
    ensures
        g.legal(m),
        m != GameMove::<Coord>::Submit,
{
    lemma_moves_for_sound(g, g.player1_moves, m);
}

/// A coordinate of the grid with at least one card next to it is among the
/// coordinates that surprises are tried for.
proof fn lemma_target(b: BoardView, to: Coord, k: int)
    requires
        b.grid.admits(to),
        0 <= k < b.cells.len(),
        b.grid.distance(b.cells[k].0, to) == 1,
    ensures
        b.targets().contains(to),
{
    let e = b.extent();
    lemma_extent_bounds(b.cells, k);
    let lo_x = if e.0 - 1 < i8::MIN { i8::MIN as int } else { e.0 - 1 };
    let hi_x = if e.1 + 1 > i8::MAX { i8::MAX as int } else { e.1 + 1 };
    let lo_y = if e.2 - 1 < i8::MIN { i8::MIN as int } else { e.2 - 1 };
    let hi_y = if e.3 + 1 > i8::MAX { i8::MAX as int } else { e.3 + 1 };
    let xs = span(lo_x, hi_x);
    let ys = span(lo_y, hi_y);
    assert(lo_x <= to.x <= hi_x);
    assert(lo_y <= to.y <= hi_y);
    assert(xs[to.x - lo_x] == to.x);
    assert(ys[to.y - lo_y] == to.y);
    let test = held(b.grid, to.x as int);
    let kept = ys.filter(test);
    assert(test(to.y as int));
    assert(ys.contains(to.y as int));
    lemma_filter_contains(ys, test, to.y as int);
    let j = choose|j: int| 0 <= j < kept.len() && kept[j] == to.y as int;
    let col = column_at(b.grid, lo_y, hi_y, to.x as int);
    assert(col[j] == b.grid.coord(to.x as int, to.y as int));
    assert(b.grid.coord(to.x as int, to.y as int) == to);
    assert(col.contains(to));
    assert(column(b.grid, lo_y, hi_y)(xs[to.x - lo_x]) == col);
    lemma_flat_map_contains(xs, column(b.grid, lo_y, hi_y), to);
}

/// The placing of a die that the generator places on a card without dice is
/// among the placings proposed.
proof fn lemma_places_complete(g: GameView, first: bool, die: Die, coord: Coord)
    requires
        g.consistent(),
        g.dice_to_place(first).contains(die),
        g.board.has_empty_card(coord),
    ensures
        GameView::place_moves(g.board.empties(), g.dice_to_place(first)).contains(
            GameMove::Place(die, coord),
        ),
{
    let m = GameMove::Place(die, coord);
    let spots = g.board.empties();
    let dice = g.dice_to_place(first);
    let i = g.board.index_of(coord);
    let cell = g.board.cells[i];
    assert(g.board.cells.contains(cell));
    lemma_filter_contains(g.board.cells, empty_test(), cell);
    let bare = g.board.empty_cells();
    let k = choose|k: int| 0 <= k < bare.len() && bare[k] == cell;
    assert(spots[k] == coord);
    let j = choose|j: int| 0 <= j < dice.len() && dice[j] == die;
    assert(placings_at(dice, coord)[j] == m);
    assert(placings(dice)(spots[k]).contains(m));
    lemma_flat_map_contains(spots, placings(dice), m);
}

proof fn lemma_fights_complete(g: GameView, first: bool, coord: Coord)
    requires
        g.consistent(),
        g.legal_for(first, GameMove::Fight(coord)),
    ensures
        g.fight_moves(first).contains(GameMove::Fight(coord)),
{
    let m = GameMove::Fight(coord);
    let keys = g.board.keys();
    let i = g.board.index_of(coord);
    assert(keys[i] == coord);
    assert(fights_on(keys)[i] == m);
    assert(g.legal_test(first)(m));
    lemma_filter_contains(fights_on(keys), g.legal_test(first), m);
}

proof fn lemma_shifts_complete(g: GameView, first: bool, die: Die, from: Coord, to: Coord)
    requires
        g.consistent(),
        g.legal_for(first, GameMove::Move(die, from, to)),
    ensures
        g.move_moves(first).contains(GameMove::Move(die, from, to)),
{
    let m = GameMove::Move(die, from, to);
    let keys = g.board.keys();
    let i = g.board.index_of(from);
    let cell = g.board.cells[i];
    assert(cell.0 == from);
    g.board.lemma_index(from, i);
    assert(g.board.cells.contains(cell));
    lemma_filter_contains(g.board.cells, active_test(first), cell);
    let lively = g.board.cells.filter(active_test(first));
    let k = choose|k: int| 0 <= k < lively.len() && lively[k] == cell;
    let a = (from, die);
    let actives = g.board.actives(first);
    assert(actives[k] == a);
    let j = g.board.index_of(to);
    assert(keys[j] == to);
    assert(moves_to(keys, a)[j] == m);
    assert(g.legal_test(first)(m));
    lemma_filter_contains(moves_to(keys, a), g.legal_test(first), m);
    assert(g.moves_of_die(first, a).contains(m));
    assert(g.mover(first)(actives[k]) == g.moves_of_die(first, a));
    lemma_flat_map_contains(actives, g.mover(first), m);
}

proof fn lemma_surprises_complete(g: GameView, first: bool, from: Coord, to: Coord)
    requires
        g.consistent(),
        g.legal_for(first, GameMove::Surprise(from, to)),
    ensures
        g.surprise_moves(first).contains(GameMove::Surprise(from, to)),
{
    let m = GameMove::Surprise(from, to);
    let keys = g.board.keys();
    let i = g.board.index_of(from);
    assert(keys[i] == from);
    let near = g.board.neighbours(to, from);
    keys.lemma_filter_pred(near_test(g.board.grid, to, from), 0);
    assert(near.contains(near[0]));
    keys.lemma_filter_contains_rev(near_test(g.board.grid, to, from), near[0]);
    let k = choose|k: int| 0 <= k < keys.len() && keys[k] == near[0];
    assert(g.board.cells[k].0 == near[0]);
    lemma_target(g.board, to, k);
    let targets = g.board.targets();
    let t = choose|t: int| 0 <= t < targets.len() && targets[t] == to;
    assert(surprises_to(targets, from)[t] == m);
    assert(g.legal_test(first)(m));
    lemma_filter_contains(surprises_to(targets, from), g.legal_test(first), m);
    assert(g.surprises_of(first, from).contains(m));
    assert(g.surpriser(first)(keys[i]) == g.surprises_of(first, from));
    lemma_flat_map_contains(keys, g.surpriser(first), m);
}

/// Every valid move is among the moves that the generator proposes, but for
/// giving up and, where dice cannot fight, for the placings of another die
/// than the first of the stock.
pub proof fn lemma_moves_for_complete(g: GameView, first: bool, m: GameMove<Coord>)
    requires
        g.consistent(),
        g.legal_for(first, m),
        m != GameMove::<Coord>::Submit,
        m matches GameMove::Place(die, _) ==> g.rules.enable_fight_move || die == g.stock(first)[0],
    ensures
        g.moves_for(first).contains(m),
{
    let places = GameView::place_moves(g.board.empties(), g.dice_to_place(first));
    let fights = g.fight_moves(first);
    let moves = g.move_moves(first);
    let surprises = g.surprise_moves(first);
    lemma_seq_concat_contains_all_elements(places, fights, m);
    lemma_seq_concat_contains_all_elements(places + fights, moves, m);
    lemma_seq_concat_contains_all_elements(places + fights + moves, surprises, m);
    match m {
        GameMove::Place(die, coord) => {
            let stock = g.stock(first);
            if g.rules.enable_fight_move {
                lemma_distinct_covers(stock, die);
            } else {
                let k = choose|k: int| 0 <= k < stock.len() && stock[k] == die;
                assert(g.dice_to_place(first)[0] == die);
            }
            lemma_places_complete(g, first, die, coord);
        },
        GameMove::Fight(coord) => {
            lemma_fights_complete(g, first, coord);
        },
        GameMove::Move(die, from, to) => {
            lemma_shifts_complete(g, first, die, from, to);
        },
        GameMove::Surprise(from, to) => {
            lemma_surprises_complete(g, first, from, to);
        },
        GameMove::Submit => {},
    }
}

/// The generator proposes the valid moves: in a position where dice can
/// fight, a move is proposed if and only if it is valid and is not giving up.
pub proof fn lemma_generated_are_the_legal_moves(g: GameView, m: GameMove<Coord>)
    requires
        g.consistent(),
        g.rules.enable_fight_move,
    ensures
        g.generated().contains(m) <==> g.legal(m) && m != GameMove::<Coord>::Submit,
{
    if g.generated().contains(m) {
        lemma_generated_are_legal(g, m);
    }
    if g.legal(m) && m != GameMove::<Coord>::Submit {
        lemma_moves_for_complete(g, g.player1_moves, m);
    }
}

} // verus!
