//! Cards by position, in increasing order of position: how a board holds its
//! cards.

use crate::card::{Card, CardKind, CardView};
use crate::coord::{lemma_key_injective, Coord};
use crate::grid::Grid;
use vstd::prelude::*;

verus! {

/// A position together with the card that lies there.
pub type Cell = (Coord, CardView);

/// The cells that the cards of a board stand for.
pub open spec fn cells_view(cards: Seq<(Coord, Card)>) -> Seq<Cell> {
    cards.map_values(|c: (Coord, Card)| (c.0, c.1@))
}

/// The cells that positions with references to cards stand for.
pub open spec fn refs_view(cards: Seq<(Coord, &Card)>) -> Seq<Cell> {
    cards.map_values(|c: (Coord, &Card)| (c.0, c.1@))
}

/// The positions of the cells, in their order.
pub open spec fn keys_of(cells: Seq<Cell>) -> Seq<Coord> {
    cells.map_values(|c: Cell| c.0)
}

/// Whether the cells are in strictly increasing order of position.
pub open spec fn increasing(cells: Seq<Cell>) -> bool {
    forall|i: int, j: int|
        0 <= i < j < cells.len() ==> (#[trigger] cells[i]).0.key() < (#[trigger] cells[j]).0.key()
}

/// Whether `p` is where a cell at `c` stands or would have to be put: the
/// cells before it lie before `c`, the others do not.
pub open spec fn is_slot(cells: Seq<Cell>, c: Coord, p: int) -> bool {
    &&& 0 <= p <= cells.len()
    &&& forall|j: int| 0 <= j < p ==> (#[trigger] cells[j]).0.key() < c.key()
    &&& forall|j: int| p <= j < cells.len() ==> (#[trigger] cells[j]).0.key() >= c.key()
}

/// Where a cell at `c` stands or would have to be put.
pub open spec fn slot(cells: Seq<Cell>, c: Coord) -> int {
    choose|p: int| is_slot(cells, c, p)
}

/// The cells with `cell` put at its place in the order.
pub open spec fn inserted(cells: Seq<Cell>, cell: Cell) -> Seq<Cell> {
    cells.insert(slot(cells, cell.0), cell)
}

/// The cells after cards of the given kinds were dealt to the first `n` positions.
pub open spec fn dealt(positions: Seq<Coord>, kinds: Seq<CardKind>, n: int) -> Seq<Cell>
    decreases n,
{
    if n <= 0 {
        Seq::empty()
    } else {
        inserted(dealt(positions, kinds, n - 1), (positions[n - 1], CardView::empty(kinds[n - 1])))
    }
}

/// Whether the first `n` cells lie at coordinates of the grid, in strictly
/// increasing order.
pub open spec fn in_place(grid: Grid, cells: Seq<Cell>, n: int) -> bool {
    &&& forall|k: int| 0 <= k < n ==> grid.admits((#[trigger] cells[k]).0)
    &&& forall|a: int, b: int|
        0 <= a < b < n ==> (#[trigger] cells[a]).0.key() < (#[trigger] cells[b]).0.key()
}

/// Whether a cell's card holds no die.
pub open spec fn empty_test() -> spec_fn(Cell) -> bool {
    |c: Cell| c.1.dice.len() == 0
}

/// Whether a cell lies in row `y`.
pub open spec fn row_test(y: i8) -> spec_fn(Cell) -> bool {
    |c: Cell| c.0.y == y
}

/// Whether a cell's uncovered die is one of the given player's.
pub open spec fn active_test(first: bool) -> spec_fn(Cell) -> bool {
    |c: Cell| c.1.dice.len() > 0 && c.1.dice.last().first_players() == first
}

/// Whether a position is next to `pos` and is not `exclude`.
pub open spec fn near_test(grid: Grid, pos: Coord, exclude: Coord) -> spec_fn(Coord) -> bool {
    |c: Coord| grid.distance(c, pos) == 1 && c != exclude
}

/// The least and greatest `x` and the least and greatest `y` of the cells;
/// of no cells, the greatest and least numbers of the type.
pub open spec fn extent_of(cells: Seq<Cell>) -> (i8, i8, i8, i8)
    decreases cells.len(),
{
    if cells.len() == 0 {
        (i8::MAX, i8::MIN, i8::MAX, i8::MIN)
    } else {
        let e = extent_of(cells.drop_last());
        let c = cells.last().0;
        (
            if c.x < e.0 { c.x } else { e.0 },
            if c.x > e.1 { c.x } else { e.1 },
            if c.y < e.2 { c.y } else { e.2 },
            if c.y > e.3 { c.y } else { e.3 },
        )
    }
}

/// Among cells in increasing order every position has its slot.
pub proof fn lemma_slot_exists(cells: Seq<Cell>, c: Coord)
    requires
        increasing(cells),
    ensures
        is_slot(cells, c, slot(cells, c)),
    decreases cells.len(),
{
    if cells.len() == 0 {
        assert(is_slot(cells, c, 0));
    } else if cells.last().0.key() < c.key() {
        assert(is_slot(cells, c, cells.len() as int));
    } else {
        let front = cells.drop_last();
        lemma_slot_exists(front, c);
        let p = slot(front, c);
        assert forall|j: int| 0 <= j < p implies (#[trigger] cells[j]).0.key() < c.key() by {
            assert(front[j] == cells[j]);
        }
        assert forall|j: int| p <= j < cells.len() implies (#[trigger] cells[j]).0.key()
            >= c.key() by {
            if j < front.len() {
                assert(front[j] == cells[j]);
            }
        }
        assert(is_slot(cells, c, p));
    }
}

/// A position has one slot only.
pub proof fn lemma_slot_unique(cells: Seq<Cell>, c: Coord, p: int)
    requires
        is_slot(cells, c, p),
    ensures
        slot(cells, c) == p,
{
    let q = slot(cells, c);
    assert(is_slot(cells, c, q));
    if q < p {
        assert(cells[q].0.key() < c.key());
    } else if p < q {
        assert(cells[p].0.key() < c.key());
    }
}

/// Putting a cell at its slot keeps the order, if no cell lies at its position yet.
pub proof fn lemma_inserted(cells: Seq<Cell>, cell: Cell)
    requires
        increasing(cells),
        forall|j: int| 0 <= j < cells.len() ==> (#[trigger] cells[j]).0 != cell.0,
    ensures
        increasing(inserted(cells, cell)),
        is_slot(cells, cell.0, slot(cells, cell.0)),
        is_slot(inserted(cells, cell), cell.0, slot(cells, cell.0)),
        inserted(cells, cell)[slot(cells, cell.0)] == cell,
        inserted(cells, cell).remove(slot(cells, cell.0)) == cells,
{
    lemma_slot_exists(cells, cell.0);
    let p = slot(cells, cell.0);
    let r = inserted(cells, cell);
    assert forall|j: int| p <= j < cells.len() implies (#[trigger] cells[j]).0.key()
        > cell.0.key() by {
        if cells[j].0.key() == cell.0.key() {
            lemma_key_injective(cells[j].0, cell.0);
        }
    }
    assert forall|i: int, j: int| 0 <= i < j < r.len() implies (#[trigger] r[i]).0.key() < (
    #[trigger] r[j]).0.key() by {
        let a = if i < p { cells[i] } else if i == p { cell } else { cells[i - 1] };
        let b = if j < p { cells[j] } else if j == p { cell } else { cells[j - 1] };
        assert(r[i] == a);
        assert(r[j] == b);
    }
    assert forall|j: int| 0 <= j < p implies (#[trigger] r[j]).0.key() < cell.0.key() by {
        assert(r[j] == cells[j]);
    }
    assert forall|j: int| p <= j < r.len() implies (#[trigger] r[j]).0.key() >= cell.0.key() by {
        if j > p {
            assert(r[j] == cells[j - 1]);
        }
    }
    assert(r.remove(p) =~= cells);
}

/// Taking a cell away keeps the order, and putting it back gives the cells back.
pub proof fn lemma_removed(cells: Seq<Cell>, i: int)
    requires
        increasing(cells),
        0 <= i < cells.len(),
    ensures
        increasing(cells.remove(i)),
        forall|j: int| 0 <= j < cells.remove(i).len() ==> (#[trigger] cells.remove(i)[j]).0 != cells[i].0,
        forall|card: CardView| #[trigger] inserted(cells.remove(i), (cells[i].0, card)) == cells.update(i, (cells[i].0, card)),
        inserted(cells.remove(i), cells[i]) == cells,
{
    let rest = cells.remove(i);
    let c = cells[i].0;
    assert forall|a: int, b: int| 0 <= a < b < rest.len() implies (#[trigger] rest[a]).0.key() < (
    #[trigger] rest[b]).0.key() by {
        let x = if a < i { cells[a] } else { cells[a + 1] };
        let y = if b < i { cells[b] } else { cells[b + 1] };
        assert(rest[a] == x);
        assert(rest[b] == y);
    }
    assert forall|j: int| 0 <= j < rest.len() implies (#[trigger] rest[j]).0 != c by {
        let x = if j < i { cells[j] } else { cells[j + 1] };
        assert(rest[j] == x);
        assert(x.0.key() != cells[i].0.key());
    }
    assert forall|j: int| 0 <= j < i implies (#[trigger] rest[j]).0.key() < c.key() by {
        assert(rest[j] == cells[j]);
    }
    assert forall|j: int| i <= j < rest.len() implies (#[trigger] rest[j]).0.key() >= c.key() by {
        assert(rest[j] == cells[j + 1]);
        assert(cells[i].0.key() < cells[j + 1].0.key());
    }
    assert(is_slot(rest, c, i));
    lemma_slot_unique(rest, c, i);
    assert forall|card: CardView| #[trigger]
        inserted(rest, (c, card)) == cells.update(i, (c, card)) by {
        assert(rest.insert(i, (c, card)) =~= cells.update(i, (c, card)));
    }
    assert(cells.update(i, cells[i]) =~= cells);
}

/// The bounding box depends on the positions only.
pub proof fn lemma_extent_keys(a: Seq<Cell>, b: Seq<Cell>)
    requires
        keys_of(a) == keys_of(b),
    ensures
        extent_of(a) == extent_of(b),
    decreases a.len(),
{
    assert(a.len() == keys_of(a).len());
    assert(b.len() == keys_of(b).len());
    if a.len() > 0 {
        assert(keys_of(a.drop_last()) =~= keys_of(a).drop_last());
        assert(keys_of(b.drop_last()) =~= keys_of(b).drop_last());
        lemma_extent_keys(a.drop_last(), b.drop_last());
        assert(a.last().0 == keys_of(a).last());
        assert(b.last().0 == keys_of(b).last());
    }
}

/// Where `coord` stands among the cards or would have to be put, and whether
/// a card lies there.
pub fn locate_in(cards: &Vec<(Coord, Card)>, coord: &Coord) -> (r: (usize, bool))
    requires
        increasing(cells_view(cards@)),
    ensures
        is_slot(cells_view(cards@), *coord, r.0 as int),
        r.0 as int == slot(cells_view(cards@), *coord),
        r.1 ==> r.0 < cards.len() && cards@[r.0 as int].0 == *coord,
        !r.1 ==> forall|j: int| 0 <= j < cards.len() ==> (#[trigger] cards@[j]).0 != *coord,
{
    let k = coord.order_key();
    let n = cards.len();
    let ghost cells = cells_view(cards@);
    let mut i: usize = 0;
    while i < n && cards[i].0.order_key() < k
        invariant
            n == cards.len(),
            i <= n,
            k == coord.key(),
            cells == cells_view(cards@),
            forall|j: int| 0 <= j < i ==> (#[trigger] cells[j]).0.key() < coord.key(),
        decreases n - i,
    {
        i += 1;
    }
    let found = i < n && cards[i].0.order_key() == k;
    proof {
        assert forall|j: int| i <= j < cells.len() implies (#[trigger] cells[j]).0.key()
            >= coord.key() by {
            if i < j {
                assert(cells[i as int].0.key() < cells[j].0.key());
            }
        }
        assert(is_slot(cells, *coord, i as int));
        lemma_slot_unique(cells, *coord, i as int);
        if found {
            lemma_key_injective(cells[i as int].0, *coord);
        } else {
            assert forall|j: int| 0 <= j < cards.len() implies (#[trigger] cards@[j]).0
                != *coord by {
                assert(cells[j].0 == cards@[j].0);
                if j >= i && i < n {
                    assert(cells[i as int].0.key() <= cells[j].0.key());
                }
            }
        }
    }
    (i, found)
}

/// Puts a card at a free position, keeping the order of the cards.
pub fn insert_card(cards: &mut Vec<(Coord, Card)>, coord: Coord, card: Card)
    requires
        increasing(cells_view(old(cards)@)),
        forall|j: int| 0 <= j < old(cards).len() ==> (#[trigger] old(cards)@[j]).0 != coord,
    ensures
        cells_view(final(cards)@) == inserted(cells_view(old(cards)@), (coord, card@)),
        increasing(cells_view(final(cards)@)),
        final(cards)@ == old(cards)@.insert(slot(cells_view(old(cards)@), coord), (coord, card)),
{
    let (p, _found) = locate_in(cards, &coord);
    proof {
        let cells = cells_view(cards@);
        assert forall|j: int| 0 <= j < cells.len() implies (#[trigger] cells[j]).0 != coord by {
            assert(cards@[j].0 == cells[j].0);
        }
        lemma_inserted(cells, (coord, card@));
    }
    let ghost before = cards@;
    let ghost cv = card@;
    cards.insert(p, (coord, card));
    proof {
        assert(cells_view(cards@) =~= inserted(cells_view(before), (coord, cv)));
    }
}

/// Whether a position is one of the first `n` positions.
pub open spec fn among(positions: Seq<Coord>, n: int, c: Coord) -> bool {
    exists|k: int| 0 <= k < n && #[trigger] positions[k] == c
}

/// What dealing gives: as many cells as cards were dealt, in increasing
/// order, at the positions dealt to and nowhere else, and at each position an
/// empty card of the kind that was dealt there.
pub proof fn lemma_dealt(positions: Seq<Coord>, kinds: Seq<CardKind>, n: int)
    requires
        0 <= n <= positions.len(),
        n <= kinds.len(),
        forall|i: int, j: int|
            0 <= i < j < positions.len() ==> #[trigger] positions[i] != #[trigger] positions[j],
    ensures
        dealt(positions, kinds, n).len() == n,
        increasing(dealt(positions, kinds, n)),
        forall|j: int|
            0 <= j < n ==> among(positions, n, (#[trigger] dealt(positions, kinds, n)[j]).0),
        forall|k: int|
            0 <= k < n ==> dealt(positions, kinds, n).contains(
                (#[trigger] positions[k], CardView::empty(kinds[k])),
            ),
    decreases n,
{
    if n > 0 {
        lemma_dealt(positions, kinds, n - 1);
        let before = dealt(positions, kinds, n - 1);
        let cell = (positions[n - 1], CardView::empty(kinds[n - 1]));
        assert forall|j: int| 0 <= j < before.len() implies (#[trigger] before[j]).0 != cell.0 by {
            assert(among(positions, n - 1, before[j].0));
            let k = choose|k: int| 0 <= k < n - 1 && #[trigger] positions[k] == before[j].0;
            assert(positions[k] != positions[n - 1]);
        }
        lemma_inserted(before, cell);
        let p = slot(before, cell.0);
        let after = dealt(positions, kinds, n);
        assert(after == before.insert(p, cell));
        assert forall|j: int| 0 <= j < n implies among(positions, n, (#[trigger] after[j]).0) by {
            if j < p {
                assert(after[j] == before[j]);
                assert(among(positions, n - 1, before[j].0));
                let k = choose|k: int| 0 <= k < n - 1 && #[trigger] positions[k] == before[j].0;
                assert(positions[k] == after[j].0);
            } else if j == p {
                assert(positions[n - 1] == after[j].0);
            } else {
                assert(after[j] == before[j - 1]);
                assert(among(positions, n - 1, before[j - 1].0));
                let k = choose|k: int| 0 <= k < n - 1 && #[trigger] positions[k] == before[j - 1].0;
                assert(positions[k] == after[j].0);
            }
        }
        assert forall|k: int| 0 <= k < n implies after.contains(
            (#[trigger] positions[k], CardView::empty(kinds[k])),
        ) by {
            let wanted = (positions[k], CardView::empty(kinds[k]));
            if k == n - 1 {
                assert(after[p] == wanted);
            } else {
                assert(before.contains(wanted));
                let j = choose|j: int| 0 <= j < before.len() && before[j] == wanted;
                if j < p {
                    assert(after[j] == wanted);
                } else {
                    assert(after[j + 1] == wanted);
                }
            }
        }
    }
}

/// Each of the four numbers of the bounding box is that of a cell, if there
/// is any cell.
pub proof fn lemma_extent_attained(cells: Seq<Cell>)
    requires
        cells.len() > 0,
    ensures
        exists|i: int| 0 <= i < cells.len() && (#[trigger] cells[i]).0.x == extent_of(cells).0,
        exists|i: int| 0 <= i < cells.len() && (#[trigger] cells[i]).0.x == extent_of(cells).1,
        exists|i: int| 0 <= i < cells.len() && (#[trigger] cells[i]).0.y == extent_of(cells).2,
        exists|i: int| 0 <= i < cells.len() && (#[trigger] cells[i]).0.y == extent_of(cells).3,
    decreases cells.len(),
{
    let front = cells.drop_last();
    let last = cells.len() - 1;
    let e = extent_of(cells);
    assert(cells[last] == cells.last());
    if front.len() > 0 {
        lemma_extent_attained(front);
        let f = extent_of(front);
        let a = choose|i: int| 0 <= i < front.len() && (#[trigger] front[i]).0.x == f.0;
        let b = choose|i: int| 0 <= i < front.len() && (#[trigger] front[i]).0.x == f.1;
        let c = choose|i: int| 0 <= i < front.len() && (#[trigger] front[i]).0.y == f.2;
        let d = choose|i: int| 0 <= i < front.len() && (#[trigger] front[i]).0.y == f.3;
        assert(cells[a] == front[a] && cells[b] == front[b] && cells[c] == front[c] && cells[d]
            == front[d]);
        let i0 = if cells[last].0.x < f.0 { last } else { a };
        let i1 = if cells[last].0.x > f.1 { last } else { b };
        let i2 = if cells[last].0.y < f.2 { last } else { c };
        let i3 = if cells[last].0.y > f.3 { last } else { d };
        assert(cells[i0].0.x == e.0);
        assert(cells[i1].0.x == e.1);
        assert(cells[i2].0.y == e.2);
        assert(cells[i3].0.y == e.3);
    } else {
        assert(extent_of(front) == (i8::MAX, i8::MIN, i8::MAX, i8::MIN));
        assert(cells[last].0.x == e.0 && cells[last].0.x == e.1);
        assert(cells[last].0.y == e.2 && cells[last].0.y == e.3);
    }
}

/// Every cell lies within the bounding box.
pub proof fn lemma_extent_bounds(cells: Seq<Cell>, i: int)
    requires
        0 <= i < cells.len(),
    ensures
        extent_of(cells).0 <= cells[i].0.x <= extent_of(cells).1,
        extent_of(cells).2 <= cells[i].0.y <= extent_of(cells).3,
    decreases cells.len(),
{
    if i < cells.len() - 1 {
        lemma_extent_bounds(cells.drop_last(), i);
    }
}

} // verus!
