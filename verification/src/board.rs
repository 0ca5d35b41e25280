//! The board: cards at positions on a grid, with the straight runs of three
//! positions cached.

use crate::card::{Card, CardView, Deck, Die};
use crate::cells::{
    active_test, cells_view, dealt, empty_test, extent_of, in_place, increasing, insert_card,
    inserted, is_slot, keys_of, lemma_dealt, lemma_extent_keys, lemma_inserted, lemma_removed,
    lemma_slot_exists, locate_in, near_test, refs_view, row_test, slot, Cell,
};
use crate::coord::Coord;
pub use crate::grid::Grid;
use crate::grid::{column, held, point, span, MAX_CARDS};
pub use crate::layout::Layout;
use crate::layout::LayoutView;
use crate::sequences::copy_of;
use crate::triples::{adjacent_triples_of, combinations3, combinations_of_three, naming, Triple};
use vstd::prelude::*;

verus! {

/// What the rules see of a board: the grid, the cards by position in
/// increasing order of position, the cached lines, and the layout.
#[verifier::ext_equal]
pub struct BoardView {
    pub grid: Grid,
    pub cells: Seq<Cell>,
    pub triples: Seq<Triple>,
    /// The layout that the board started from.
    pub layout: LayoutView,
}

impl BoardView {
    /// The positions of the cards, in increasing order.
    pub open spec fn keys(self) -> Seq<Coord> {
        keys_of(self.cells)
    }

    /// Whether a card lies at `c`.
    pub open spec fn has(self, c: Coord) -> bool {
        exists|i: int| 0 <= i < self.cells.len() && (#[trigger] self.cells[i]).0 == c
    }

    /// The place of the card at `c` among the cells.
    pub open spec fn index_of(self, c: Coord) -> int {
        choose|i: int| 0 <= i < self.cells.len() && (#[trigger] self.cells[i]).0 == c
    }

    /// The card at `c`.
    pub open spec fn card(self, c: Coord) -> CardView {
        self.cells[self.index_of(c)].1
    }

    /// Whether a card without dice lies at `c`.
    pub open spec fn has_empty_card(self, c: Coord) -> bool {
        self.has(c) && self.card(c).dice.len() == 0
    }

    /// The board as it must be: at most `MAX_CARDS` cards, in strictly
    /// increasing order of position, each at a coordinate of the grid, and
    /// the cached lines those of the positions.
    pub open spec fn wf(self) -> bool {
        &&& self.cells.len() <= MAX_CARDS
        &&& increasing(self.cells)
        &&& forall|i: int| 0 <= i < self.cells.len() ==> self.grid.admits((#[trigger] self.cells[i]).0)
        &&& self.triples == adjacent_triples_of(self.grid, self.keys())
    }

    /// The board with `card` in place of the card of cell `i`.
    pub open spec fn set_card(self, i: int, card: CardView) -> BoardView {
        BoardView {
            grid: self.grid,
            cells: self.cells.update(i, (self.cells[i].0, card)),
            triples: self.triples,
            layout: self.layout,
        }
    }

    /// The board with `card` in place of the card at `c`.
    pub open spec fn with_card(self, c: Coord, card: CardView) -> BoardView {
        self.set_card(self.index_of(c), card)
    }

    /// The board after the card at `from` went to the free position `to`.
    pub open spec fn relocated(self, from: Coord, to: Coord) -> BoardView {
        let i = self.index_of(from);
        let cells = inserted(self.cells.remove(i), (to, self.cells[i].1));
        BoardView {
            grid: self.grid,
            cells,
            triples: adjacent_triples_of(self.grid, keys_of(cells)),
            layout: self.layout,
        }
    }

    /// The cells whose cards hold no die.
    pub open spec fn empty_cells(self) -> Seq<Cell> {
        self.cells.filter(empty_test())
    }

    /// The positions of the cards that hold no die.
    pub open spec fn empties(self) -> Seq<Coord> {
        keys_of(self.empty_cells())
    }

    /// The cells of the given row, by increasing `x`.
    pub open spec fn row(self, y: i8) -> Seq<Cell> {
        self.cells.filter(row_test(y))
    }

    /// The uncovered dice of one player with their positions.
    pub open spec fn actives(self, first: bool) -> Seq<(Coord, Die)> {
        self.cells.filter(active_test(first)).map_values(|c: Cell| (c.0, c.1.dice.last()))
    }

    /// The positions next to `pos` that hold a card, but for `exclude`.
    pub open spec fn neighbours(self, pos: Coord, exclude: Coord) -> Seq<Coord> {
        self.keys().filter(near_test(self.grid, pos, exclude))
    }

    /// The least and greatest `x` and the least and greatest `y` of the cards.
    pub open spec fn extent(self) -> (i8, i8, i8, i8) {
        extent_of(self.cells)
    }

    /// The coordinates that a surprise may lead to at most: those that the
    /// grid has within one step of the bounding box, by increasing `x`, then
    /// `y`.
    pub open spec fn targets(self) -> Seq<Coord> {
        let e = self.extent();
        let lo_x = if e.0 - 1 < i8::MIN { i8::MIN as int } else { e.0 - 1 };
        let hi_x = if e.1 + 1 > i8::MAX { i8::MAX as int } else { e.1 + 1 };
        let lo_y = if e.2 - 1 < i8::MIN { i8::MIN as int } else { e.2 - 1 };
        let hi_y = if e.3 + 1 > i8::MAX { i8::MAX as int } else { e.3 + 1 };
        span(lo_x, hi_x).flat_map(column(self.grid, lo_y, hi_y))
    }

    /// The cell found at a position is the one that `index_of` and `card` name.
    pub proof fn lemma_index(self, c: Coord, i: int)
        requires
            increasing(self.cells),
            0 <= i < self.cells.len(),
            self.cells[i].0 == c,
        ensures
            self.has(c),
            self.index_of(c) == i,
            self.card(c) == self.cells[i].1,
    {
        let k = self.index_of(c);
        assert(self.cells[k].0 == c);
        if k < i {
            assert(self.cells[k].0.key() < self.cells[i].0.key());
        } else if i < k {
            assert(self.cells[i].0.key() < self.cells[k].0.key());
        }
    }

    /// What putting another card at an occupied position changes: that card,
    /// and nothing else.
    pub proof fn lemma_with_card(self, c: Coord, card: CardView)
        requires
            self.wf(),
            self.has(c),
        ensures
            self.with_card(c, card).wf(),
            self.with_card(c, card).keys() == self.keys(),
            self.with_card(c, card).triples == self.triples,
            self.with_card(c, card).grid == self.grid,
            self.with_card(c, card).extent() == self.extent(),
            self.with_card(c, card).card(c) == card,
            forall|o: Coord| #[trigger] self.with_card(c, card).has(o) == self.has(o),
            forall|o: Coord|
                self.has(o) ==> #[trigger] self.with_card(c, card).index_of(o) == self.index_of(o),
            forall|o: Coord|
                self.has(o) && o != c ==> #[trigger] self.with_card(c, card).card(o) == self.card(o),
            forall|other: CardView| #[trigger]
                self.with_card(c, card).with_card(c, other) == self.with_card(c, other),
            self.with_card(c, self.card(c)) == self,
    {
        let i = self.index_of(c);
        self.lemma_set_card_wf(i, card);
        let b = self.with_card(c, card);
        assert(b.index_of(c) == i);
        assert forall|o: Coord| self.has(o) && o != c implies #[trigger] b.card(o) == self.card(
            o,
        ) by {
            assert(b.has(o));
            let k = self.index_of(o);
            assert(self.cells[k].0 == o);
        }
        assert forall|other: CardView| #[trigger]
            b.with_card(c, other) == self.with_card(c, other) by {
            assert(b.with_card(c, other).cells =~= self.with_card(c, other).cells);
        }
        assert(self.with_card(c, self.card(c)).cells =~= self.cells);
        lemma_extent_keys(b.cells, self.cells);
    }

    /// What taking the card at `from` to the free position `to` changes, and
    /// that taking it back restores the board.
    pub proof fn lemma_relocated(self, from: Coord, to: Coord)
        requires
            self.wf(),
            self.has(from),
            !self.has(to),
            self.grid.admits(to),
        ensures
            self.relocated(from, to).wf(),
            self.relocated(from, to).has(to),
            !self.relocated(from, to).has(from),
            self.relocated(from, to).card(to) == self.card(from),
            self.grid.admits(from),
            self.relocated(from, to).relocated(to, from) == self,
            self.relocated(from, to).cells.len() == self.cells.len(),
    {
        let i = self.index_of(from);
        let cell = self.cells[i];
        assert(cell.0 == from);
        let rest = self.cells.remove(i);
        lemma_removed(self.cells, i);
        let moved = (to, cell.1);
        assert forall|j: int| 0 <= j < rest.len() implies (#[trigger] rest[j]).0 != to by {
            let k = if j < i { j } else { j + 1 };
            assert(rest[j] == self.cells[k]);
        }
        lemma_inserted(rest, moved);
        let p = slot(rest, to);
        let b = self.relocated(from, to);
        assert(b.cells == rest.insert(p, moved));
        assert(b.cells[p] == moved);
        b.lemma_index(to, p);
        assert forall|k: int| 0 <= k < b.cells.len() implies self.grid.admits(
            (#[trigger] b.cells[k]).0,
        ) && b.cells[k].0 != from by {
            if k < p {
                assert(b.cells[k] == rest[k]);
            } else if k > p {
                assert(b.cells[k] == rest[k - 1]);
            }
            if k != p {
                let j = if k < p { k } else { k - 1 };
                let q = if j < i { j } else { j + 1 };
                assert(rest[j] == self.cells[q]);
                assert(self.cells[q].0.key() != self.cells[i].0.key());
            }
        }
        assert(b.wf());
        if b.has(from) {
            let k = b.index_of(from);
            assert(b.cells[k].0 == from);
        }
        let back = b.relocated(to, from);
        assert(b.cells.remove(p) == rest);
        assert(back.cells == inserted(rest, (from, cell.1)));
        assert(back.cells == self.cells);
        assert(back.triples == self.triples);
    }

    /// Changing a card changes neither the positions nor the validity of the board.
    pub proof fn lemma_set_card_wf(self, i: int, card: CardView)
        requires
            self.wf(),
            0 <= i < self.cells.len(),
        ensures
            self.set_card(i, card).wf(),
            self.set_card(i, card).keys() == self.keys(),
            forall|c: Coord| self.set_card(i, card).has(c) == self.has(c),
            forall|c: Coord| #[trigger]
                self.set_card(i, card).has(c) ==> self.set_card(i, card).index_of(c)
                    == self.index_of(c),
    {
        let b = self.set_card(i, card);
        assert(b.keys() =~= self.keys());
        assert forall|c: Coord| b.has(c) == self.has(c) by {
            if self.has(c) {
                let k = self.index_of(c);
                assert(b.cells[k].0 == c);
            }
            if b.has(c) {
                let k = b.index_of(c);
                assert(self.cells[k].0 == c);
            }
        }
        assert forall|c: Coord| #[trigger] b.has(c) implies b.index_of(c) == self.index_of(c) by {
            let k = b.index_of(c);
            assert(self.cells[k].0 == c);
            self.lemma_index(c, k);
        }
    }
}

/// Represents the whole game board: cards at particular positions and a type
/// of grid used (to make sense of positions).
#[derive(Debug)]
pub struct Board {
    pub grid: Grid,
    /// The cards by position, in increasing order of position.
    pub cards: Vec<(Coord, Card)>,
    pub layout: Layout,
    /// The straight runs of three positions, renewed whenever a card changes
    /// its position.
    pub adj_triples: Vec<Triple>,
}

impl View for Board {
    type V = BoardView;

    open spec fn view(&self) -> BoardView {
        BoardView {
            grid: self.grid,
            cells: cells_view(self.cards@),
            triples: self.adj_triples@,
            layout: self.layout@,
        }
    }
}

/// Why cards do not make a board.
#[derive(PartialEq, Eq, Structural, Debug, Copy, Clone)]
pub enum InvalidBoard {
    /// There are more than `MAX_CARDS` cards.
    TooManyCards,
    /// A card lies at a position that is no coordinate of the grid.
    OffGrid(Coord),
    /// The cards are not in strictly increasing order of position.
    OutOfOrder(Coord),
}

/// Which cells a query asks for.
#[derive(Clone, Copy)]
enum Wanted {
    /// Those of a row.
    InRow(i8),
    /// Those whose cards hold no die.
    WithoutDice,
}

impl Wanted {
    spec fn test(self) -> spec_fn(Cell) -> bool {
        match self {
            Wanted::InRow(y) => row_test(y),
            Wanted::WithoutDice => empty_test(),
        }
    }
}

// Making boards.
impl Board {
    /// The board as it must be: see `BoardView::wf`.
    pub open spec fn wf(&self) -> bool {
        self@.wf()
    }

    /// Deals the cards of the deck, first to last, to the positions of the
    /// layout in its dealing order.
    pub fn new(layout: Layout, deck: Deck) -> (b: Board)
        requires
            layout.wf(),
            deck@.len() == layout.positions().len(),
        ensures
            b.wf(),
            b@.grid == layout.grid(),
            b@.cells == dealt(layout.positions(), deck@, deck@.len() as int),
            b@.cells.len() == deck@.len(),
            forall|k: int|
                0 <= k < deck@.len() ==> b@.has(#[trigger] layout.positions()[k]) && b@.card(
                    layout.positions()[k],
                ) == CardView::empty(deck@[k]),
            b.layout == layout,
            forall|k: int| 0 <= k < b@.cells.len() ==> (#[trigger] b@.cells[k]).1.dice.len() == 0,
    {
        let grid = layout.grid_kind();
        let positions = layout.deal_order();
        let n = positions.len();
        let mut cards: Vec<(Coord, Card)> = Vec::new();
        proof {
            layout.lemma_positions();
        }
        let mut i: usize = 0;
        while i < n
            invariant
                n == positions.len(),
                n == deck@.len(),
                n <= MAX_CARDS,
                i <= n,
                positions@ == layout.positions(),
                grid == layout.grid(),
                forall|a: int| 0 <= a < n ==> grid.admits(#[trigger] positions@[a]),
                forall|a: int, b: int|
                    0 <= a < b < n ==> #[trigger] positions@[a] != #[trigger] positions@[b],
                cards.len() == i,
                cells_view(cards@) == dealt(positions@, deck@, i as int),
                increasing(cells_view(cards@)),
                forall|k: int|
                    0 <= k < cards.len() ==> exists|j: int|
                        0 <= j < i && (#[trigger] cards@[k]).0 == #[trigger] positions@[j],
                forall|k: int| 0 <= k < cards.len() ==> (#[trigger] cards@[k]).1.dice@.len() == 0,
            decreases n - i,
        {
            let pos = positions[i];
            let card = Card::new(deck.kind_at(i));
            let ghost before = cards@;
            proof {
                assert forall|k: int| 0 <= k < cards.len() implies (#[trigger] cards@[k]).0
                    != pos by {
                    let j = choose|j: int|
                        0 <= j < i && (#[trigger] cards@[k]).0 == #[trigger] positions@[j];
                    assert(positions@[j] != positions@[i as int]);
                }
            }
            insert_card(&mut cards, pos, card);
            proof {
                let p = slot(cells_view(before), pos);
                lemma_slot_exists(cells_view(before), pos);
                assert forall|k: int| 0 <= k < cards.len() implies exists|j: int|
                    0 <= j < i + 1 && (#[trigger] cards@[k]).0 == #[trigger] positions@[j] by {
                    if k < p {
                        assert(cards@[k] == before[k]);
                        let j = choose|j: int|
                            0 <= j < i && (#[trigger] before[k]).0 == #[trigger] positions@[j];
                        assert(cards@[k].0 == positions@[j]);
                    } else if k == p {
                        assert(cards@[k].0 == positions@[i as int]);
                    } else {
                        assert(cards@[k] == before[k - 1]);
                        let j = choose|j: int|
                            0 <= j < i && (#[trigger] before[k - 1]).0 == #[trigger] positions@[j];
                        assert(cards@[k].0 == positions@[j]);
                    }
                }
            }
            i += 1;
        }
        let mut board = Board { grid, cards, layout, adj_triples: Vec::new() };
        board.refresh_adj_triples();
        proof {
            lemma_dealt(positions@, deck@, n as int);
            assert forall|k: int| 0 <= k < n implies board@.has(#[trigger] positions@[k])
                && board@.card(positions@[k]) == CardView::empty(deck@[k]) by {
                let wanted = (positions@[k], CardView::empty(deck@[k]));
                assert(board@.cells.contains(wanted));
                let j = choose|j: int| 0 <= j < board@.cells.len() && board@.cells[j] == wanted;
                board@.lemma_index(positions@[k], j);
            }
            assert forall|k: int| 0 <= k < board@.cells.len() implies (
            #[trigger] board@.cells[k]).1.dice.len() == 0 by {
                assert(board.cards@[k].1.dice@.len() == 0);
            }
            assert forall|k: int| 0 <= k < board@.cells.len() implies grid.admits(
                (#[trigger] board@.cells[k]).0,
            ) by {
                let j = choose|j: int|
                    0 <= j < n && (#[trigger] board.cards@[k]).0 == #[trigger] positions@[j];
                assert(board@.cells[k].0 == positions@[j]);
            }
        }
        board
    }

    /// A board made of cards at positions, as they were taken from a board
    /// before. The cached lines are made anew.
    ///
    /// The cards are looked at from first to last, and the first that lies
    /// off the grid or is out of order gives the error.
    pub fn from_cards(grid: Grid, layout: Layout, cards: Vec<(Coord, Card)>) -> (r: Result<
        Board,
        InvalidBoard,
    >)
        ensures
            match r {
                Ok(b) => b.wf() && b@.grid == grid && b@.cells == cells_view(cards@) && b.layout
                    == layout,
                Err(InvalidBoard::TooManyCards) => cards.len() > MAX_CARDS,
                Err(InvalidBoard::OffGrid(c)) => cards.len() <= MAX_CARDS && exists|i: int|
                    0 <= i < cards.len() && (#[trigger] cards@[i]).0 == c && !grid.admits(c)
                        && in_place(grid, cells_view(cards@), i),
                Err(InvalidBoard::OutOfOrder(c)) => cards.len() <= MAX_CARDS && exists|i: int|
                    0 < i < cards.len() && (#[trigger] cards@[i]).0 == c && grid.admits(c)
                        && cards@[i - 1].0.key() >= c.key() && in_place(
                        grid,
                        cells_view(cards@),
                        i,
                    ),
            },
    {
        let n = cards.len();
        if n > MAX_CARDS {
            return Err(InvalidBoard::TooManyCards);
        }
        let mut board = Board { grid, cards, layout, adj_triples: Vec::new() };
        let ghost cells = board@.cells;
        let mut i: usize = 0;
        while i < n
            invariant
                n == board.cards.len(),
                n <= MAX_CARDS,
                i <= n,
                board.grid == grid,
                board.layout == layout,
                board.cards@ == cards@,
                cells == board@.cells,
                forall|k: int| 0 <= k < i ==> grid.admits((#[trigger] cells[k]).0),
                forall|a: int, b: int|
                    0 <= a < b < i ==> (#[trigger] cells[a]).0.key() < (#[trigger] cells[b]).0.key(),
            decreases n - i,
        {
            let c = board.cards[i].0;
            assert(cells[i as int].0 == c);
            if !board.admits(&c) {
                assert(in_place(grid, cells, i as int));
                return Err(InvalidBoard::OffGrid(c));
            }
            if i > 0 && board.cards[i - 1].0.order_key() >= c.order_key() {
                assert(in_place(grid, cells, i as int));
                return Err(InvalidBoard::OutOfOrder(c));
            }
            proof {
                assert forall|a: int, b: int| 0 <= a < b < i + 1 implies (#[trigger] cells[a]).0.key()
                    < (#[trigger] cells[b]).0.key() by {
                    if b == i && a < i - 1 {
                        assert(cells[a].0.key() < cells[i - 1].0.key());
                    }
                    if b == i {
                        assert(cells[i - 1].0 == board.cards@[i - 1].0);
                    }
                }
            }
            i += 1;
        }
        board.refresh_adj_triples();
        Ok(board)
    }
}

// The grid, the lines and the extent.
impl Board {
    /// The grid's coordinate with the given `x` and `y`.
    pub fn new_coord(&self, x: i8, y: i8) -> (c: Coord)
        requires
            self.grid == Grid::Hex ==> -128 <= -(x as int) - (y as int) <= 127,
        ensures
            c == self.grid.coord(x as int, y as int),
    {
        match self.grid {
            Grid::Hex => Coord::new_hex(x, y),
            Grid::Square => Coord::new_square(x, y),
        }
    }

    /// Whether `coord` is a coordinate of the board's grid.
    pub fn admits(&self, coord: &Coord) -> (b: bool)
        ensures
            b == self@.grid.admits(*coord),
    {
        match self.grid {
            Grid::Hex => coord.x as i32 + coord.y as i32 + coord.z as i32 == 0,
            Grid::Square => coord.z == 0,
        }
    }

    /// Manhattan distance on hex and square grids.
    pub fn distance(grid: &Grid, a: &Coord, b: &Coord) -> (d: usize)
        ensures
            d == grid.distance(*a, *b),
    {
        let dx: i32 = a.x as i32 - b.x as i32;
        let dy: i32 = a.y as i32 - b.y as i32;
        let dz: i32 = a.z as i32 - b.z as i32;
        let dx: i32 = if dx < 0 { -dx } else { dx };
        let dy: i32 = if dy < 0 { -dy } else { dy };
        let dz: i32 = if dz < 0 { -dz } else { dz };
        match grid {
            Grid::Hex => {
                if dx >= dy && dx >= dz {
                    dx as usize
                } else if dy >= dz {
                    dy as usize
                } else {
                    dz as usize
                }
            },
            Grid::Square => (dx + dy) as usize,
        }
    }

    /// Checks if three positions are adjacent to each other.
    pub fn are_three_adjacent(grid: &Grid, x: &Coord, y: &Coord, z: &Coord) -> (b: bool)
        ensures
            b == grid.adjacent(*x, *y, *z),
    {
        let mut ones: u8 = 0;
        if Self::distance(grid, x, y) == 1 {
            ones += 1
        }
        if Self::distance(grid, x, z) == 1 {
            ones += 1
        }
        if Self::distance(grid, y, z) == 1 {
            ones += 1
        }
        ones > 1
    }

    /// Checks if three positions are in one line (but not necessary
    /// adjacent).
    pub fn are_three_in_line(grid: &Grid, a: &Coord, b: &Coord, c: &Coord) -> (r: bool)
        ensures
            r == grid.in_line(*a, *b, *c),
    {
        match grid {
            Grid::Hex => (a.x == b.x && b.x == c.x) || (a.y == b.y && b.y == c.y) || (a.z == b.z
                && b.z == c.z),
            Grid::Square => (a.x == b.x && b.x == c.x) || (a.y == b.y && b.y == c.y),
        }
    }

    /// Calculate all possible adjacent triples in a single line.
    pub fn adjacent_triples(grid: &Grid, coords: &Vec<Coord>) -> (r: Vec<Triple>)
        ensures
            r@ == adjacent_triples_of(*grid, coords@),
    {
        let all = combinations_of_three(coords);
        let mut result: Vec<Triple> = Vec::new();
        let n = all.len();
        let mut i: usize = 0;
        while i < n
            invariant
                n == all.len(),
                i <= n,
                all@ == combinations3(coords@),
                result@ == all@.take(i as int).filter(grid.line_test()),
            decreases n - i,
        {
            let tri = all[i];
            let are_adj = Self::are_three_adjacent(grid, &tri.0, &tri.1, &tri.2);
            let are_in_line = Self::are_three_in_line(grid, &tri.0, &tri.1, &tri.2);
            proof {
                all@.lemma_take_succ_push(i as int);
                all@.take(i as int).lemma_filter_push(all@[i as int], grid.line_test());
            }
            if are_adj && are_in_line {
                result.push(tri);
            }
            i += 1;
        }
        proof {
            all@.lemma_take_len();
        }
        result
    }

    /// Renews the cached lines. It has to be done whenever a card got a new position.
    pub fn refresh_adj_triples(&mut self)
        ensures
            final(self)@.grid == old(self)@.grid,
            final(self)@.cells == old(self)@.cells,
            final(self)@.triples == adjacent_triples_of(old(self)@.grid, old(self)@.keys()),
            final(self).layout == old(self).layout,
    {
        let coords = self.coords_iter();
        self.adj_triples = Self::adjacent_triples(&self.grid, &coords);
    }

    /// The cached lines.
    pub fn adj_triples_iter(&self) -> (r: &Vec<Triple>)
        ensures
            r@ == self@.triples,
    {
        &self.adj_triples
    }

    /// The number of cached lines that pass through `c`.
    pub fn num_of_adjacent_triples(&self, c: Coord) -> (n: usize)
        ensures
            n == self@.triples.filter(naming(c)).len(),
    {
        let mut count: usize = 0;
        let n = self.adj_triples.len();
        let mut i: usize = 0;
        while i < n
            invariant
                n == self.adj_triples.len(),
                i <= n,
                count <= i,
                count == self@.triples.take(i as int).filter(naming(c)).len(),
            decreases n - i,
        {
            let t = self.adj_triples[i];
            proof {
                self@.triples.lemma_take_succ_push(i as int);
                self@.triples.take(i as int).lemma_filter_push(self@.triples[i as int], naming(c));
            }
            if c == t.0 || c == t.1 || c == t.2 {
                count += 1;
            }
            i += 1;
        }
        proof {
            self@.triples.lemma_take_len();
        }
        count
    }

    /// Bounding box (left, right, top, bottom), inclusive.
    pub fn bounding_box(&self) -> (r: (i8, i8, i8, i8))
        ensures
            r == self@.extent(),
    {
        let mut left = i8::MAX;
        let mut right = i8::MIN;
        let mut top = i8::MAX;
        let mut bottom = i8::MIN;
        let n = self.cards.len();
        let mut i: usize = 0;
        while i < n
            invariant
                n == self.cards.len(),
                i <= n,
                (left, right, top, bottom) == extent_of(self@.cells.take(i as int)),
            decreases n - i,
        {
            let c = self.cards[i].0;
            proof {
                assert(self@.cells.take(i + 1).drop_last() =~= self@.cells.take(i as int));
            }
            if c.x < left {
                left = c.x;
            }
            if c.x > right {
                right = c.x;
            }
            if c.y > bottom {
                bottom = c.y;
            }
            if c.y < top {
                top = c.y;
            }
            i += 1;
        }
        proof {
            self@.cells.lemma_take_len();
        }
        (left, right, top, bottom)
    }

    /// The top-most row (i.e. one with the minimal y-coordinate).
    pub fn top_row(&self) -> (y: i8)
        requires
            self@.cells.len() > 0,
        ensures
            y == self@.extent().2,
    {
        self.bounding_box().2
    }

    /// The bottom-most row (i.e. one with the maximal y-coordinate).
    pub fn bottom_row(&self) -> (y: i8)
        requires
            self@.cells.len() > 0,
        ensures
            y == self@.extent().3,
    {
        self.bounding_box().3
    }

    /// The coordinates that a surprise may lead to at most: those that the
    /// grid has within one step of the bounding box, by increasing `x`, then
    /// `y`.
    pub fn surprise_targets(&self) -> (r: Vec<Coord>)
        ensures
            r@ == self@.targets(),
    {
        let (left, right, top, bottom) = self.bounding_box();
        let least: i16 = i8::MIN as i16;
        let most: i16 = i8::MAX as i16;
        let lo_x: i16 = if (left as i16) - 1 < least { least } else { left as i16 - 1 };
        let hi_x: i16 = if (right as i16) + 1 > most { most } else { right as i16 + 1 };
        let lo_y: i16 = if (top as i16) - 1 < least { least } else { top as i16 - 1 };
        let hi_y: i16 = if (bottom as i16) + 1 > most { most } else { bottom as i16 + 1 };
        let ghost xs = span(lo_x as int, hi_x as int);
        let ghost ys = span(lo_y as int, hi_y as int);
        let ghost col = column(self.grid, lo_y as int, hi_y as int);
        let mut r: Vec<Coord> = Vec::new();
        let mut x: i16 = lo_x;
        assert(xs.take(0).flat_map(col) =~= Seq::<Coord>::empty());
        while x <= hi_x
            invariant
                least == i8::MIN,
                most == i8::MAX,
                i8::MIN <= lo_x <= x,
                x <= hi_x + 1 || x == lo_x,
                hi_x <= i8::MAX,
                i8::MIN <= lo_y,
                hi_y <= i8::MAX,
                xs == span(lo_x as int, hi_x as int),
                ys == span(lo_y as int, hi_y as int),
                col == column(self.grid, lo_y as int, hi_y as int),
                r@ == xs.take(x - lo_x).flat_map(col),
            decreases hi_x + 1 - x,
        {
            let ghost base = r@;
            let ghost test = held(self.grid, x as int);
            let ghost make = point(self.grid, x as int);
            let mut y: i16 = lo_y;
            assert(ys.take(0).filter(test).map_values(make) =~= Seq::<Coord>::empty());
            while y <= hi_y
                invariant
                    least == i8::MIN,
                    most == i8::MAX,
                    i8::MIN <= lo_x <= x <= hi_x <= i8::MAX,
                    i8::MIN <= lo_y <= y,
                    y <= hi_y + 1 || y == lo_y,
                    hi_y <= i8::MAX,
                    ys == span(lo_y as int, hi_y as int),
                    test == held(self.grid, x as int),
                    make == point(self.grid, x as int),
                    r@ == base + ys.take(y - lo_y).filter(test).map_values(make),
                decreases hi_y + 1 - y,
            {
                let third: i16 = -x - y;
                let fits = match self.grid {
                    Grid::Hex => least <= third && third <= most,
                    Grid::Square => true,
                };
                proof {
                    assert(ys[y - lo_y] == y);
                    ys.lemma_take_succ_push(y - lo_y);
                    ys.take(y - lo_y).lemma_filter_push(y as int, test);
                    assert(fits == test(y as int));
                }
                if fits {
                    let c = self.new_coord(x as i8, y as i8);
                    r.push(c);
                    proof {
                        let kept = ys.take(y - lo_y).filter(test);
                        assert(kept.push(y as int).map_values(make) =~= kept.map_values(
                            make,
                        ).push(c));
                    }
                }
                y += 1;
            }
            proof {
                assert(ys.take(y - lo_y) =~= ys);
                assert(xs[x - lo_x] == x);
                xs.lemma_flat_map_take_append(col, x - lo_x);
            }
            x += 1;
        }
        proof {
            assert(xs.take(x - lo_x) =~= xs);
        }
        r
    }
}

// Finding cards.
impl Board {
    /// Where `coord` stands among the cards or would have to be put, and
    /// whether a card lies there.
    pub fn locate(&self, coord: &Coord) -> (r: (usize, bool))
        requires
            increasing(self@.cells),
        ensures
            is_slot(self@.cells, *coord, r.0 as int),
            r.0 as int == slot(self@.cells, *coord),
            r.1 == self@.has(*coord),
            r.1 ==> r.0 < self.cards.len() && self.cards@[r.0 as int].0 == *coord
                && self@.index_of(*coord) == r.0,
    {
        let r = locate_in(&self.cards, coord);
        proof {
            let cells = self@.cells;
            let i = r.0 as int;
            if r.1 {
                self@.lemma_index(*coord, i);
            } else if self@.has(*coord) {
                let q = self@.index_of(*coord);
                assert(cells[q].0 == *coord);
            }
        }
        r
    }

    /// A card at particular coordinate.
    pub fn card_at(&self, coord: &Coord) -> (r: Option<&Card>)
        requires
            self.wf(),
        ensures
            match r {
                Some(card) => self@.has(*coord) && card@ == self@.card(*coord),
                None => !self@.has(*coord),
            },
    {
        let (i, found) = self.locate(coord);
        if found {
            Some(&self.cards[i].1)
        } else {
            None
        }
    }

    /// A mutable reference to a card at a particular coordinate. Whatever is
    /// done to the card, the other cards and the positions stay as they are.
    pub fn card_at_mut(&mut self, coord: &Coord) -> (r: Option<&mut Card>)
        requires
            old(self).wf(),
        ensures
            match r {
                Some(card) => old(self)@.has(*coord) && card@ == old(self)@.card(*coord)
                    && final(self)@ =~~= old(self)@.with_card(*coord, final(card)@),
                None => !old(self)@.has(*coord) && final(self)@ == old(self)@,
            },
    {
        let (i, found) = self.locate(coord);
        if found {
            Some(&mut self.cards[i].1)
        } else {
            None
        }
    }

    /// Check is the position has a card and it's empty. Note that "no card"
    /// is different to "empty card".
    pub fn has_empty_card_at(&self, coord: &Coord) -> (b: bool)
        requires
            self.wf(),
        ensures
            b == self@.has_empty_card(*coord),
    {
        let (i, found) = self.locate(coord);
        found && self.cards[i].1.is_empty()
    }

    /// The uncovered die at a position, if a card with dice lies there.
    pub fn top_die_at(&self, coord: &Coord) -> (r: Option<Die>)
        requires
            self.wf(),
        ensures
            r == if self@.has(*coord) {
                self@.card(*coord).top()
            } else {
                None
            },
    {
        match self.card_at(coord) {
            Some(card) => match card.top_die() {
                Some(d) => Some(*d),
                None => None,
            },
            None => None,
        }
    }
}

// Going through the cards.
impl Board {
    /// The positions of the cards, in increasing order.
    pub fn coords_iter(&self) -> (r: Vec<Coord>)
        ensures
            r@ == self@.keys(),
    {
        let mut r: Vec<Coord> = Vec::new();
        let n = self.cards.len();
        let mut i: usize = 0;
        while i < n
            invariant
                n == self.cards.len(),
                i <= n,
                r@.len() == i,
                forall|j: int| 0 <= j < i ==> r@[j] == (#[trigger] self.cards@[j]).0,
            decreases n - i,
        {
            r.push(self.cards[i].0);
            i += 1;
        }
        assert(r@ =~= self@.keys());
        r
    }

    /// All cards, by increasing position.
    pub fn cards_iter(&self) -> (r: Vec<&Card>)
        ensures
            r@.len() == self@.cells.len(),
            forall|i: int| 0 <= i < r@.len() ==> (#[trigger] r@[i])@ == self@.cells[i].1,
    {
        let mut r: Vec<&Card> = Vec::new();
        let n = self.cards.len();
        let mut i: usize = 0;
        while i < n
            invariant
                n == self.cards.len(),
                i <= n,
                r@.len() == i,
                forall|j: int| 0 <= j < i ==> (#[trigger] r@[j])@ == self@.cells[j].1,
            decreases n - i,
        {
            r.push(&self.cards[i].1);
            i += 1;
        }
        r
    }

    /// All cards along with their coordinates, by increasing position.
    pub fn coord_cards_iter(&self) -> (r: Vec<(Coord, &Card)>)
        ensures
            refs_view(r@) == self@.cells,
    {
        let mut r: Vec<(Coord, &Card)> = Vec::new();
        let n = self.cards.len();
        let mut i: usize = 0;
        while i < n
            invariant
                n == self.cards.len(),
                i <= n,
                refs_view(r@) == self@.cells.take(i as int),
            decreases n - i,
        {
            let ghost before = r@;
            r.push((self.cards[i].0, &self.cards[i].1));
            proof {
                self@.cells.lemma_take_succ_push(i as int);
                assert(refs_view(r@) =~= refs_view(before).push(self@.cells[i as int]));
            }
            i += 1;
        }
        proof {
            self@.cells.lemma_take_len();
        }
        r
    }

    /// The cells that are wanted, by increasing position.
    fn select(&self, wanted: Wanted) -> (r: Vec<(Coord, &Card)>)
        ensures
            refs_view(r@) == self@.cells.filter(wanted.test()),
    {
        let ghost test = wanted.test();
        let mut r: Vec<(Coord, &Card)> = Vec::new();
        let n = self.cards.len();
        let mut i: usize = 0;
        while i < n
            invariant
                n == self.cards.len(),
                i <= n,
                test == wanted.test(),
                refs_view(r@) == self@.cells.take(i as int).filter(test),
            decreases n - i,
        {
            let ghost before = r@;
            let hit = match wanted {
                Wanted::InRow(y) => self.cards[i].0.y == y,
                Wanted::WithoutDice => self.cards[i].1.is_empty(),
            };
            if hit {
                r.push((self.cards[i].0, &self.cards[i].1));
            }
            proof {
                self@.cells.lemma_take_succ_push(i as int);
                self@.cells.take(i as int).lemma_filter_push(self@.cells[i as int], test);
                if hit {
                    assert(refs_view(r@) =~= refs_view(before).push(self@.cells[i as int]));
                }
            }
            i += 1;
        }
        proof {
            self@.cells.lemma_take_len();
        }
        r
    }

    /// Positions and cards from given `row` (`y` coordinate) ordered by `x`
    /// coordinate.
    pub fn row_iter(&self, row: i8) -> (r: Vec<(Coord, &Card)>)
        ensures
            refs_view(r@) == self@.row(row),
    {
        self.select(Wanted::InRow(row))
    }

    /// Cards from given `row` (`y` coordinate) ordered by `x` coordinate.
    pub fn row_cards_iter(&self, row: i8) -> (r: Vec<&Card>)
        ensures
            r@.len() == self@.row(row).len(),
            forall|i: int| 0 <= i < r@.len() ==> (#[trigger] r@[i])@ == self@.row(row)[i].1,
    {
        let cells = self.row_iter(row);
        let mut r: Vec<&Card> = Vec::new();
        let n = cells.len();
        let mut i: usize = 0;
        while i < n
            invariant
                n == cells.len(),
                i <= n,
                r@.len() == i,
                refs_view(cells@) == self@.row(row),
                forall|j: int| 0 <= j < i ==> (#[trigger] r@[j])@ == self@.row(row)[j].1,
            decreases n - i,
        {
            assert(refs_view(cells@)[i as int].1 == cells@[i as int].1@);
            r.push(cells[i].1);
            i += 1;
        }
        assert(refs_view(cells@).len() == cells@.len());
        r
    }

    /// Positions of cards from given `row` (`y` coordinate) ordered by `x`
    /// coordinate.
    pub fn row_positions_iter(&self, row: i8) -> (r: Vec<Coord>)
        ensures
            r@ == keys_of(self@.row(row)),
    {
        let cells = self.row_iter(row);
        let mut r: Vec<Coord> = Vec::new();
        let n = cells.len();
        let mut i: usize = 0;
        assert(refs_view(cells@).len() == cells@.len());
        while i < n
            invariant
                n == cells.len(),
                i <= n,
                r@.len() == i,
                refs_view(cells@) == self@.row(row),
                forall|j: int| 0 <= j < i ==> #[trigger] r@[j] == self@.row(row)[j].0,
            decreases n - i,
        {
            assert(refs_view(cells@)[i as int].0 == cells@[i as int].0);
            r.push(cells[i].0);
            i += 1;
        }
        assert(r@ =~= keys_of(self@.row(row)));
        r
    }

    /// Positions and cards with no dice on them.
    pub fn empty_cards_iter(&self) -> (r: Vec<(Coord, &Card)>)
        ensures
            refs_view(r@) == self@.empty_cells(),
    {
        self.select(Wanted::WithoutDice)
    }

    /// The dice on cards which are not covered by other dice and belong to
    /// the given player, with their positions.
    pub fn active_dice_iter(&self, for_player1: bool) -> (r: Vec<(Coord, Die)>)
        ensures
            r@ == self@.actives(for_player1),
    {
        let ghost test = active_test(for_player1);
        let ghost pick = |c: Cell| (c.0, c.1.dice.last());
        let mut r: Vec<(Coord, Die)> = Vec::new();
        let n = self.cards.len();
        let mut i: usize = 0;
        while i < n
            invariant
                n == self.cards.len(),
                i <= n,
                test == active_test(for_player1),
                pick == |c: Cell| (c.0, c.1.dice.last()),
                r@ == self@.cells.take(i as int).filter(test).map_values(pick),
            decreases n - i,
        {
            let ghost before = r@;
            proof {
                self@.cells.lemma_take_succ_push(i as int);
                self@.cells.take(i as int).lemma_filter_push(self@.cells[i as int], test);
            }
            match self.cards[i].1.top_die() {
                Some(d) => {
                    if d.belongs_to_player1() == for_player1 {
                        r.push((self.cards[i].0, *d));
                        proof {
                            let f = self@.cells.take(i as int).filter(test);
                            assert(f.push(self@.cells[i as int]).map_values(pick) =~= f.map_values(
                                pick,
                            ).push(pick(self@.cells[i as int])));
                        }
                    }
                },
                None => {},
            }
            i += 1;
        }
        proof {
            self@.cells.lemma_take_len();
        }
        r
    }

    /// The positions of the cards next to `pos`, excluding `exclude`.
    pub fn neighbours_iter_without(&self, pos: Coord, exclude: Coord) -> (r: Vec<Coord>)
        ensures
            r@ == self@.neighbours(pos, exclude),
    {
        let ghost test = near_test(self.grid, pos, exclude);
        let ghost keys = self@.keys();
        let mut r: Vec<Coord> = Vec::new();
        let n = self.cards.len();
        let mut i: usize = 0;
        while i < n
            invariant
                n == self.cards.len(),
                i <= n,
                keys == self@.keys(),
                test == near_test(self.grid, pos, exclude),
                r@ == keys.take(i as int).filter(test),
            decreases n - i,
        {
            let c = self.cards[i].0;
            proof {
                keys.lemma_take_succ_push(i as int);
                keys.take(i as int).lemma_filter_push(keys[i as int], test);
            }
            if Self::distance(&self.grid, &c, &pos) == 1 && c != exclude {
                r.push(c);
            }
            i += 1;
        }
        proof {
            keys.lemma_take_len();
        }
        r
    }
}

// Changing the board.
impl Board {
    /// Puts a die on top of the card at `coord`.
    pub fn push_die(&mut self, coord: &Coord, die: Die)
        requires
            old(self).wf(),
            old(self)@.has(*coord),
        ensures
            final(self).wf(),
            final(self)@ == old(self)@.with_card(*coord, old(self)@.card(*coord).pushed(die)),
            final(self).layout == old(self).layout,
    {
        let (i, _found) = self.locate(coord);
        proof {
            self@.lemma_with_card(*coord, self@.card(*coord).pushed(die));
        }
        self.cards[i].1.dice.push(die);
        assert(self@ =~~= old(self)@.with_card(*coord, old(self)@.card(*coord).pushed(die)));
    }

    /// Takes the uncovered die from the card at `coord`.
    pub fn pop_die(&mut self, coord: &Coord) -> (die: Die)
        requires
            old(self).wf(),
            old(self)@.has(*coord),
            old(self)@.card(*coord).dice.len() > 0,
        ensures
            final(self).wf(),
            final(self)@ == old(self)@.with_card(*coord, old(self)@.card(*coord).popped()),
            die == old(self)@.card(*coord).dice.last(),
            final(self).layout == old(self).layout,
    {
        let (i, _found) = self.locate(coord);
        proof {
            self@.lemma_with_card(*coord, self@.card(*coord).popped());
        }
        let n = self.cards[i].1.dice.len();
        let die = self.cards[i].1.dice.remove(n - 1);
        assert(self@ =~~= old(self)@.with_card(*coord, old(self)@.card(*coord).popped()));
        die
    }

    /// Puts a die into the stack of the card at `coord`, with `index` dice below it.
    pub fn insert_die(&mut self, coord: &Coord, index: usize, die: Die)
        requires
            old(self).wf(),
            old(self)@.has(*coord),
            index <= old(self)@.card(*coord).dice.len(),
        ensures
            final(self).wf(),
            final(self)@ == old(self)@.with_card(
                *coord,
                (CardView {
                    kind: old(self)@.card(*coord).kind,
                    dice: old(self)@.card(*coord).dice.insert(index as int, die),
                }),
            ),
            final(self).layout == old(self).layout,
    {
        let (i, _found) = self.locate(coord);
        let ghost after = CardView {
            kind: self@.card(*coord).kind,
            dice: self@.card(*coord).dice.insert(index as int, die),
        };
        proof {
            self@.lemma_with_card(*coord, after);
        }
        self.cards[i].1.dice.insert(index, die);
        assert(self@ =~~= old(self)@.with_card(*coord, after));
    }

    /// Lets the two upper dice of the card at `coord` fight and leaves the
    /// winner in their place. Returns the winner, the loser, and whether the
    /// winner lay below.
    pub fn settle_fight(&mut self, coord: &Coord) -> (r: (Die, Die, bool))
        requires
            old(self).wf(),
            old(self)@.has(*coord),
            old(self)@.card(*coord).dice.len() >= 2,
        ensures
            final(self).wf(),
            r == Die::fight(
                old(self)@.card(*coord).dice.last(),
                old(self)@.card(*coord).dice.drop_last().last(),
            ),
            final(self)@ == old(self)@.with_card(
                *coord,
                (CardView {
                    kind: old(self)@.card(*coord).kind,
                    dice: old(self)@.card(*coord).dice.drop_last().drop_last().push(r.0),
                }),
            ),
            final(self).layout == old(self).layout,
    {
        let (i, _found) = self.locate(coord);
        let ghost card = self@.card(*coord);
        let n = self.cards[i].1.dice.len();
        let top_die = self.cards[i].1.dice[n - 1];
        let bottom_die = self.cards[i].1.dice[n - 2];
        let r = Die::compare_dice(top_die, bottom_die);
        let ghost after = CardView {
            kind: card.kind,
            dice: card.dice.drop_last().drop_last().push(r.0),
        };
        proof {
            self@.lemma_with_card(*coord, after);
        }
        self.cards[i].1.dice.truncate(n - 2);
        self.cards[i].1.dice.push(r.0);
        assert(self@ =~~= old(self)@.with_card(*coord, after));
        r
    }

    /// Takes the card at `from` to the free position `to` and renews the
    /// cached lines.
    pub fn relocate(&mut self, from: &Coord, to: &Coord)
        requires
            old(self).wf(),
            old(self)@.has(*from),
            !old(self)@.has(*to),
            old(self)@.grid.admits(*to),
        ensures
            final(self).wf(),
            final(self)@ == old(self)@.relocated(*from, *to),
            final(self).layout == old(self).layout,
    {
        let (i, _found) = self.locate(from);
        let ghost before = self@;
        proof {
            before.lemma_relocated(*from, *to);
            lemma_removed(before.cells, i as int);
        }
        let cell = self.cards.remove(i);
        proof {
            assert(cells_view(self.cards@) =~= before.cells.remove(i as int));
            assert forall|j: int| 0 <= j < self.cards.len() implies (#[trigger] self.cards@[j]).0
                != *to by {
                let k = if j < i { j } else { j + 1 };
                assert(self.cards@[j].0 == before.cells[k].0);
            }
        }
        insert_card(&mut self.cards, *to, cell.1);
        self.refresh_adj_triples();
        assert(self@ =~~= before.relocated(*from, *to));
    }
}

impl Clone for Board {
    fn clone(&self) -> (b: Board)
        ensures
            b@ == self@,
    {
        let mut cards: Vec<(Coord, Card)> = Vec::new();
        let n = self.cards.len();
        let mut i: usize = 0;
        while i < n
            invariant
                n == self.cards.len(),
                i <= n,
                cards.len() == i,
                forall|j: int|
                    0 <= j < i ==> (#[trigger] cards@[j]).0 == self.cards@[j].0 && cards@[j].1@
                        == self.cards@[j].1@,
            decreases n - i,
        {
            cards.push((self.cards[i].0, self.cards[i].1.clone()));
            i += 1;
        }
        let b = Board {
            grid: self.grid,
            cards,
            layout: self.layout.clone(),
            adj_triples: copy_of(&self.adj_triples),
        };
        assert(b@ =~~= self@);
        b
    }
}

} // verus!
