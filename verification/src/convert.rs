//! User coordinates, counted by rows and cards, and the positions that they
//! name.

use crate::board::{Board, BoardView};
use crate::cells::{increasing, keys_of, row_test, Cell};
use crate::coord::{Coord, UserCoord};
use crate::game::GameMove;
use vstd::prelude::*;

verus! {

/// Why a user coordinate names no card of the board.
#[derive(PartialEq, Eq, Structural, Debug, Copy, Clone)]
pub enum ConversionError {
    /// Rows and cards are counted from 1.
    StartsFromOne,
    /// The board has no row with this number.
    RowOutOfBounds(u8),
    /// The row has no card with this number.
    CardOutOfBounds(u8),
}

/// Whether a cell lies in a row above row `y`.
pub open spec fn above_test(y: int) -> spec_fn(Cell) -> bool {
    |c: Cell| c.0.y < y
}

/// There are at least as many cells above row `y + 1` as above row `y`, and
/// one more if a cell lies in row `y`.
pub proof fn lemma_cells_above(cells: Seq<Cell>, y: int)
    ensures
        cells.filter(above_test(y + 1)).len() >= cells.filter(above_test(y)).len() + if exists|
            i: int,
        |
            0 <= i < cells.len() && (#[trigger] cells[i]).0.y == y {
            1int
        } else {
            0int
        },
    decreases cells.len(),
{
    if cells.len() > 0 {
        let front = cells.drop_last();
        let last = cells.last();
        lemma_cells_above(front, y);
        front.lemma_filter_push(last, above_test(y + 1));
        front.lemma_filter_push(last, above_test(y));
        assert(front.push(last) =~= cells);
        if exists|i: int| 0 <= i < cells.len() && (#[trigger] cells[i]).0.y == y {
            let i = choose|i: int| 0 <= i < cells.len() && (#[trigger] cells[i]).0.y == y;
            if i < front.len() {
                assert(front[i].0.y == y);
            } else {
                assert(last.0.y == y);
            }
        }
        if exists|i: int| 0 <= i < front.len() && (#[trigger] front[i]).0.y == y {
            let i = choose|i: int| 0 <= i < front.len() && (#[trigger] front[i]).0.y == y;
            assert(cells[i].0.y == y);
        }
    } else {
        assert(cells.filter(above_test(y)).len() == 0) by {
            cells.lemma_filter_len(above_test(y));
        }
    }
}

/// Whether a cell lies further left than `x`.
pub open spec fn left_test(x: i8) -> spec_fn(Cell) -> bool {
    |c: Cell| c.0.x < x
}

impl BoardView {
    /// Whether a card lies in row `y`.
    pub open spec fn has_row(self, y: int) -> bool {
        exists|i: int| 0 <= i < self.cells.len() && (#[trigger] self.cells[i]).0.y == y
    }

    /// The number of rows with cards above row `y`.
    pub open spec fn rows_before(self, y: int) -> nat
        decreases y - i8::MIN,
    {
        if y <= i8::MIN {
            0
        } else {
            self.rows_before(y - 1) + if self.has_row(y - 1) {
                1nat
            } else {
                0nat
            }
        }
    }

    /// The row that has `r` rows with cards between row `y` and itself, `y`
    /// included: the first such row with cards, if there is one.
    pub open spec fn find_row(self, y: int, r: nat) -> Option<int>
        decreases i8::MAX + 1 - y,
    {
        if y > i8::MAX {
            None
        } else if self.has_row(y) {
            if r == 0 {
                Some(y)
            } else {
                self.find_row(y + 1, (r - 1) as nat)
            }
        } else {
            self.find_row(y + 1, r)
        }
    }

    /// The number of cards in the row of `c` that lie further left.
    pub open spec fn cards_before(self, c: Coord) -> nat {
        self.row(c.y).filter(left_test(c.x)).len()
    }

    /// The position that a user coordinate names: rows count from the top,
    /// cards from the left, both from 1, and only rows and positions with
    /// cards count.
    pub open spec fn user_to_coord(self, uc: UserCoord) -> Result<Coord, ConversionError> {
        if uc.row == 0 || uc.card == 0 {
            Err(ConversionError::StartsFromOne)
        } else {
            match self.find_row(i8::MIN as int, (uc.row - 1) as nat) {
                None => Err(ConversionError::RowOutOfBounds(uc.row)),
                Some(y) => {
                    if uc.card - 1 < self.row(y as i8).len() {
                        Ok(self.row(y as i8)[uc.card - 1].0)
                    } else {
                        Err(ConversionError::CardOutOfBounds(uc.card))
                    }
                },
            }
        }
    }

    /// The user coordinate of a position.
    pub open spec fn coord_to_user(self, c: Coord) -> UserCoord {
        UserCoord {
            row: (self.rows_before(c.y as int) + 1) as u8,
            card: (self.cards_before(c) + 1) as u8,
        }
    }

    /// A move in internal coordinates for a move in user coordinates. The
    /// coordinates are converted from first to last, and the first that
    /// names no card gives the error.
    pub open spec fn move_from_user(self, m: GameMove<UserCoord>) -> Result<
        GameMove<Coord>,
        ConversionError,
    > {
        match m {
            GameMove::Place(d, uc) => match self.user_to_coord(uc) {
                Ok(c) => Ok(GameMove::Place(d, c)),
                Err(e) => Err(e),
            },
            GameMove::Move(d, uc_from, uc_to) => match self.user_to_coord(uc_from) {
                Ok(from) => match self.user_to_coord(uc_to) {
                    Ok(to) => Ok(GameMove::Move(d, from, to)),
                    Err(e) => Err(e),
                },
                Err(e) => Err(e),
            },
            GameMove::Fight(uc) => match self.user_to_coord(uc) {
                Ok(c) => Ok(GameMove::Fight(c)),
                Err(e) => Err(e),
            },
            GameMove::Surprise(uc_from, to) => match self.user_to_coord(uc_from) {
                Ok(from) => Ok(GameMove::Surprise(from, to)),
                Err(e) => Err(e),
            },
            GameMove::Submit => Ok(GameMove::Submit),
        }
    }

    /// A move in user coordinates for a move in internal coordinates.
    pub open spec fn move_to_user(self, m: GameMove<Coord>) -> GameMove<UserCoord> {
        match m {
            GameMove::Place(d, c) => GameMove::Place(d, self.coord_to_user(c)),
            GameMove::Move(d, from, to) => GameMove::Move(
                d,
                self.coord_to_user(from),
                self.coord_to_user(to),
            ),
            GameMove::Fight(c) => GameMove::Fight(self.coord_to_user(c)),
            GameMove::Surprise(from, to) => GameMove::Surprise(self.coord_to_user(from), to),
            GameMove::Submit => GameMove::Submit,
        }
    }

    /// There are no more rows with cards above a row than cells above it.
    pub proof fn lemma_rows_before(self, y: int)
        ensures
            self.rows_before(y) <= self.cells.filter(above_test(y)).len(),
        decreases y - i8::MIN,
    {
        if y > i8::MIN {
            self.lemma_rows_before(y - 1);
            lemma_cells_above(self.cells, y - 1);
        }
    }

    /// The row found has cards and the number of rows above it that was asked for.
    pub proof fn lemma_find_row(self, y: int, r: nat)
        requires
            i8::MIN <= y,
            self.find_row(y, r) is Some,
        ensures
            y <= self.find_row(y, r)->0 <= i8::MAX,
            self.has_row(self.find_row(y, r)->0),
            self.rows_before(self.find_row(y, r)->0) == self.rows_before(y) + r,
        decreases i8::MAX + 1 - y,
    {
        if y <= i8::MAX {
            if self.has_row(y) {
                if r > 0 {
                    self.lemma_find_row(y + 1, (r - 1) as nat);
                }
            } else {
                self.lemma_find_row(y + 1, r);
            }
        }
    }
}

/// Selecting cells keeps them in increasing order, each of them a cell of
/// the whole.
pub proof fn lemma_filter_increasing(cells: Seq<Cell>, p: spec_fn(Cell) -> bool)
    requires
        increasing(cells),
    ensures
        increasing(cells.filter(p)),
        forall|i: int|
            0 <= i < cells.filter(p).len() ==> cells.contains(#[trigger] cells.filter(p)[i]) && p(
                cells.filter(p)[i],
            ),
    decreases cells.len(),
{
    let kept = cells.filter(p);
    assert forall|i: int| 0 <= i < kept.len() implies cells.contains(#[trigger] kept[i]) && p(
        kept[i],
    ) by {
        cells.lemma_filter_pred(p, i);
        assert(kept.contains(kept[i]));
        cells.lemma_filter_contains_rev(p, kept[i]);
    }
    if cells.len() > 0 {
        let front = cells.drop_last();
        let last = cells.last();
        lemma_filter_increasing(front, p);
        front.lemma_filter_push(last, p);
        assert(front.push(last) =~= cells);
        let head = front.filter(p);
        assert forall|i: int, j: int| 0 <= i < j < kept.len() implies (#[trigger] kept[i]).0.key()
            < (#[trigger] kept[j]).0.key() by {
            if j < head.len() {
                assert(kept[i] == head[i]);
                assert(kept[j] == head[j]);
            } else {
                assert(kept[j] == last);
                assert(kept[i] == head[i]);
                assert(front.contains(head[i]));
                let k = choose|k: int| 0 <= k < front.len() && front[k] == head[i];
                assert(cells[k] == head[i]);
                assert(cells[cells.len() - 1] == last);
            }
        }
    }
}

/// Of cells ordered by `x`, those further left than the cell at `j` are `j`.
pub proof fn lemma_count_left(cells: Seq<Cell>, j: int)
    requires
        forall|a: int, b: int| 0 <= a < b < cells.len() ==> (#[trigger] cells[a]).0.x < (
        #[trigger] cells[b]).0.x,
        0 <= j < cells.len(),
    ensures
        cells.filter(left_test(cells[j].0.x)).len() == j,
    decreases cells.len(),
{
    let x = cells[j].0.x;
    let front = cells.drop_last();
    let last = cells.last();
    front.lemma_filter_push(last, left_test(x));
    assert(front.push(last) =~= cells);
    assert(cells[cells.len() - 1] == last);
    if j < cells.len() - 1 {
        assert(front[j] == cells[j]);
        assert forall|a: int, b: int| 0 <= a < b < front.len() implies (#[trigger] front[a]).0.x < (
        #[trigger] front[b]).0.x by {
            assert(front[a] == cells[a]);
            assert(front[b] == cells[b]);
        }
        lemma_count_left(front, j);
    } else {
        lemma_all_left(front, x);
    }
}

/// Cells that all lie further left than `x` are all selected by that test.
proof fn lemma_all_left(cells: Seq<Cell>, x: i8)
    requires
        forall|a: int| 0 <= a < cells.len() ==> (#[trigger] cells[a]).0.x < x,
    ensures
        cells.filter(left_test(x)).len() == cells.len(),
    decreases cells.len(),
{
    if cells.len() > 0 {
        let front = cells.drop_last();
        let last = cells.last();
        front.lemma_filter_push(last, left_test(x));
        assert(front.push(last) =~= cells);
        assert(cells[cells.len() - 1] == last);
        assert forall|a: int| 0 <= a < front.len() implies (#[trigger] front[a]).0.x < x by {
            assert(front[a] == cells[a]);
        }
        lemma_all_left(front, x);
    } else {
        assert(cells.filter(left_test(x)) =~= Seq::<Cell>::empty()) by {
            cells.lemma_filter_len(left_test(x));
        }
    }
}

impl BoardView {
    /// The cards of a row lie in the row, on the board, and in strictly
    /// increasing order of `x`.
    pub proof fn lemma_row(self, y: i8)
        requires
            self.wf(),
        ensures
            forall|i: int|
                0 <= i < self.row(y).len() ==> (#[trigger] self.row(y)[i]).0.y == y
                    && self.cells.contains(self.row(y)[i]),
            forall|a: int, b: int|
                0 <= a < b < self.row(y).len() ==> (#[trigger] self.row(y)[a]).0.x < (
                #[trigger] self.row(y)[b]).0.x,
    {
        let row = self.row(y);
        lemma_filter_increasing(self.cells, row_test(y));
        assert forall|i: int| 0 <= i < row.len() implies self.grid.admits((#[trigger] row[i]).0)
            && row[i].0.y == y by {
            let k = choose|k: int| 0 <= k < self.cells.len() && self.cells[k] == row[i];
            assert(self.grid.admits(self.cells[k].0));
        }
        assert forall|a: int, b: int| 0 <= a < b < row.len() implies (#[trigger] row[a]).0.x < (
        #[trigger] row[b]).0.x by {
            assert(row[a].0.key() < row[b].0.key());
            assert(self.grid.admits(row[a].0));
            assert(self.grid.admits(row[b].0));
        }
    }

    /// Converting a user coordinate that names a card, and converting the
    /// card's position back, gives the user coordinate.
    pub proof fn lemma_user_round_trip(self, uc: UserCoord)
        requires
            self.wf(),
            self.user_to_coord(uc) is Ok,
        ensures
            self.has(self.user_to_coord(uc)->Ok_0),
            self.coord_to_user(self.user_to_coord(uc)->Ok_0) == uc,
    {
        let r = (uc.row - 1) as nat;
        let y = self.find_row(i8::MIN as int, r)->0;
        self.lemma_find_row(i8::MIN as int, r);
        self.lemma_rows_before(y);
        self.cells.lemma_filter_len(above_test(y));
        let row = self.row(y as i8);
        let j = uc.card - 1;
        let c = row[j].0;
        self.lemma_row(y as i8);
        assert(c.y == y);
        lemma_count_left(row, j);
        assert(self.cells.contains(row[j]));
        let k = choose|k: int| 0 <= k < self.cells.len() && self.cells[k] == row[j];
        assert(self.cells[k].0 == c);
    }
}

impl Board {
    /// Whether a card lies in row `y`.
    fn has_row(&self, y: i8) -> (b: bool)
        ensures
            b == self@.has_row(y as int),
    {
        let n = self.cards.len();
        let mut i: usize = 0;
        while i < n
            invariant
                n == self.cards.len(),
                i <= n,
                forall|k: int| 0 <= k < i ==> (#[trigger] self@.cells[k]).0.y != y,
            decreases n - i,
        {
            if self.cards[i].0.y == y {
                assert(self@.cells[i as int].0.y == y);
                return true;
            }
            i += 1;
        }
        false
    }

    /// Convert between user visible (row + card) and internal (hex/square)
    /// coordinates in presence of given board.
    pub fn convert_coordinates(&self, user_coord: &UserCoord) -> (r: Result<Coord, ConversionError>)
        requires
            self.wf(),
        ensures
            r == self@.user_to_coord(*user_coord),
    {
        if user_coord.row == 0 || user_coord.card == 0 {
            return Err(ConversionError::StartsFromOne);
        }
        let user_card = (user_coord.card - 1) as usize;
        let mut rows_to_skip: u8 = user_coord.row - 1;
        let mut row: i16 = i8::MIN as i16;
        while row <= i8::MAX as i16
            invariant
                i8::MIN <= row <= i8::MAX + 1,
                user_coord.row != 0,
                user_coord.card != 0,
                user_card == user_coord.card - 1,
                self@.find_row(i8::MIN as int, (user_coord.row - 1) as nat) == self@.find_row(
                    row as int,
                    rows_to_skip as nat,
                ),
            decreases i8::MAX + 1 - row,
        {
            let y = row as i8;
            if self.has_row(y) {
                if rows_to_skip == 0 {
                    let positions = self.row_positions_iter(y);
                    assert(positions@.len() == self@.row(y).len());
                    if user_card < positions.len() {
                        assert(positions@[user_card as int] == self@.row(y)[user_card as int].0);
                        return Ok(positions[user_card]);
                    } else {
                        return Err(ConversionError::CardOutOfBounds(user_coord.card));
                    }
                }
                rows_to_skip -= 1;
            }
            row += 1;
        }
        Err(ConversionError::RowOutOfBounds(user_coord.row))
    }

    /// Convert internal coordinates (hex/square) to user visible coordinates
    /// (row + card) in presence of given board.
    pub fn convert_coordinates_to_user(&self, coord: &Coord) -> (r: UserCoord)
        requires
            self.wf(),
        ensures
            r == self@.coord_to_user(*coord),
    {
        let mut rows: u16 = 0;
        let mut row: i16 = i8::MIN as i16;
        while row < coord.y as i16
            invariant
                i8::MIN <= row <= coord.y,
                rows == self@.rows_before(row as int),
                rows <= row - i8::MIN,
            decreases coord.y - row,
        {
            if self.has_row(row as i8) {
                rows += 1;
            }
            row += 1;
        }
        proof {
            self@.lemma_rows_before(coord.y as int);
            self@.cells.lemma_filter_len(above_test(coord.y as int));
        }
        let positions = self.row_positions_iter(coord.y);
        let ghost row = self@.row(coord.y);
        let ghost test = left_test(coord.x);
        let mut cards: u8 = 0;
        let n = positions.len();
        let mut i: usize = 0;
        assert(row.len() == n);
        proof {
            row.lemma_filter_len(test);
            self@.cells.lemma_filter_len(row_test(coord.y));
        }
        while i < n
            invariant
                n == positions.len(),
                n == row.len(),
                n <= 128,
                i <= n,
                positions@ == keys_of(row),
                test == left_test(coord.x),
                cards == row.take(i as int).filter(test).len(),
                cards <= i,
            decreases n - i,
        {
            proof {
                row.lemma_take_succ_push(i as int);
                row.take(i as int).lemma_filter_push(row[i as int], test);
                assert(positions@[i as int] == row[i as int].0);
            }
            if positions[i].x < coord.x {
                cards += 1;
            }
            i += 1;
        }
        proof {
            row.lemma_take_len();
        }
        UserCoord { row: (rows + 1) as u8, card: cards + 1 }
    }

    /// Convert from user coordinates to internal coordinates in a GameMove.
    pub fn convert_move_coords(&self, m: &GameMove<UserCoord>) -> (r: Result<
        GameMove<Coord>,
        ConversionError,
    >)
        requires
            self.wf(),
        ensures
            r == self@.move_from_user(*m),
    {
        match m {
            GameMove::Place(d, uc) => match self.convert_coordinates(uc) {
                Ok(c) => Ok(GameMove::Place(*d, c)),
                Err(e) => Err(e),
            },
            GameMove::Move(d, uc_from, uc_to) => match self.convert_coordinates(uc_from) {
                Ok(from) => match self.convert_coordinates(uc_to) {
                    Ok(to) => Ok(GameMove::Move(*d, from, to)),
                    Err(e) => Err(e),
                },
                Err(e) => Err(e),
            },
            GameMove::Fight(uc) => match self.convert_coordinates(uc) {
                Ok(c) => Ok(GameMove::Fight(c)),
                Err(e) => Err(e),
            },
            GameMove::Surprise(uc_from, to) => match self.convert_coordinates(uc_from) {
                Ok(from) => Ok(GameMove::Surprise(from, *to)),
                Err(e) => Err(e),
            },
            GameMove::Submit => Ok(GameMove::Submit),
        }
    }

    /// Convert from internal coordinates to user coordinates in a GameMove.
    pub fn convert_move_coords_to_user(&self, m: &GameMove<Coord>) -> (r: GameMove<UserCoord>)
        requires
            self.wf(),
        ensures
            r == self@.move_to_user(*m),
    {
        match m {
            GameMove::Place(d, c) => GameMove::Place(*d, self.convert_coordinates_to_user(c)),
            GameMove::Move(d, from, to) => GameMove::Move(
                *d,
                self.convert_coordinates_to_user(from),
                self.convert_coordinates_to_user(to),
            ),
            GameMove::Fight(c) => GameMove::Fight(self.convert_coordinates_to_user(c)),
            GameMove::Surprise(from, to) => GameMove::Surprise(
                self.convert_coordinates_to_user(from),
                *to,
            ),
            GameMove::Submit => GameMove::Submit,
        }
    }
}

impl BoardView {
    /// Converting a move in user coordinates that all name cards, and
    /// converting the move back, gives the move.
    pub proof fn lemma_move_round_trip(self, m: GameMove<UserCoord>)
        requires
            self.wf(),
            self.move_from_user(m) is Ok,
        ensures
            self.move_to_user(self.move_from_user(m)->Ok_0) == m,
    {
        match m {
            GameMove::Place(_, uc) => {
                self.lemma_user_round_trip(uc);
            },
            GameMove::Move(_, uc_from, uc_to) => {
                self.lemma_user_round_trip(uc_from);
                self.lemma_user_round_trip(uc_to);
            },
            GameMove::Fight(uc) => {
                self.lemma_user_round_trip(uc);
            },
            GameMove::Surprise(uc_from, _) => {
                self.lemma_user_round_trip(uc_from);
            },
            GameMove::Submit => {},
        }
    }
}

} // verus!
