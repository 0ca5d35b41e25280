//! The two grids and their geometry.

use crate::coord::Coord;
use crate::triples::Triple;
use vstd::prelude::*;

verus! {

/// The largest number of cards on a board. Within it every row and card
/// number fits a user coordinate and the evaluation of a position fits `i32`.
pub const MAX_CARDS: usize = 128;

/// A type of grid used for the game. Most of the game scenarios use a hex
/// grid (also known as "bricks layout"), but the basic one uses a square grid.
#[derive(PartialEq, Eq, Structural, Copy, Clone, Debug)]
pub enum Grid {
    Hex,
    Square,
}

/// The distance of a number from zero.
pub open spec fn abs(i: int) -> int {
    if i < 0 {
        -i
    } else {
        i
    }
}

impl Grid {
    /// Whether `c` is a coordinate of this grid: on the hex grid the three
    /// numbers add up to zero, on the square grid the third is zero.
    pub open spec fn admits(self, c: Coord) -> bool {
        match self {
            Grid::Hex => c.x + c.y + c.z == 0,
            Grid::Square => c.z == 0,
        }
    }

    /// Whether the grid has a coordinate with the given `x` and `y`: both
    /// fit their type, and so does, on the hex grid, the third number.
    pub open spec fn holds(self, x: int, y: int) -> bool {
        &&& i8::MIN <= x <= i8::MAX
        &&& i8::MIN <= y <= i8::MAX
        &&& self == Grid::Hex ==> i8::MIN <= -x - y <= i8::MAX
    }

    /// The coordinate of this grid with the given `x` and `y`.
    pub open spec fn coord(self, x: int, y: int) -> Coord {
        match self {
            Grid::Hex => Coord { x: x as i8, y: y as i8, z: (-x - y) as i8 },
            Grid::Square => Coord { x: x as i8, y: y as i8, z: 0 },
        }
    }

    /// The number of steps between two cells.
    pub open spec fn distance(self, a: Coord, b: Coord) -> int {
        match self {
            Grid::Hex => {
                let dx = abs(a.x - b.x);
                let dy = abs(a.y - b.y);
                let dz = abs(a.z - b.z);
                if dx >= dy && dx >= dz {
                    dx
                } else if dy >= dz {
                    dy
                } else {
                    dz
                }
            },
            Grid::Square => abs(a.x - b.x) + abs(a.y - b.y),
        }
    }

    /// Whether at least two of the three pairs of cells are neighbours.
    pub open spec fn adjacent(self, a: Coord, b: Coord, c: Coord) -> bool {
        ||| self.distance(a, b) == 1 && self.distance(a, c) == 1
        ||| self.distance(a, b) == 1 && self.distance(b, c) == 1
        ||| self.distance(a, c) == 1 && self.distance(b, c) == 1
    }

    /// Whether the three cells share a coordinate that names a line of the grid.
    pub open spec fn in_line(self, a: Coord, b: Coord, c: Coord) -> bool {
        match self {
            Grid::Hex => (a.x == b.x && b.x == c.x) || (a.y == b.y && b.y == c.y) || (a.z == b.z
                && b.z == c.z),
            Grid::Square => (a.x == b.x && b.x == c.x) || (a.y == b.y && b.y == c.y),
        }
    }

    /// Whether the three cells form a straight run without a gap.
    pub open spec fn lines_up(self, t: Triple) -> bool {
        self.adjacent(t.0, t.1, t.2) && self.in_line(t.0, t.1, t.2)
    }

    /// `lines_up` as a test on triples.
    pub open spec fn line_test(self) -> spec_fn(Triple) -> bool {
        |t: Triple| self.lines_up(t)
    }
}

/// The integers from `lo` to `hi`, both included.
pub open spec fn span(lo: int, hi: int) -> Seq<int> {
    Seq::new(
        if hi >= lo {
            (hi - lo + 1) as nat
        } else {
            0
        },
        |i: int| lo + i,
    )
}

/// Whether the grid has a coordinate with the given `x` and a `y`.
pub open spec fn held(grid: Grid, x: int) -> spec_fn(int) -> bool {
    |y: int| grid.holds(x, y)
}

/// The coordinate of the grid with the given `x` and a `y`.
pub open spec fn point(grid: Grid, x: int) -> spec_fn(int) -> Coord {
    |y: int| grid.coord(x, y)
}

/// The coordinates that the grid has with the given `x` and `y` from `lo`
/// to `hi`.
pub open spec fn column_at(grid: Grid, lo: int, hi: int, x: int) -> Seq<Coord> {
    span(lo, hi).filter(held(grid, x)).map_values(point(grid, x))
}

/// `column_at` as a function of `x`.
pub open spec fn column(grid: Grid, lo: int, hi: int) -> spec_fn(int) -> Seq<Coord> {
    |x: int| column_at(grid, lo, hi, x)
}

} // verus!
