//! Where the cards lie at the start of a game.

use crate::coord::Coord;
use crate::grid::{Grid, MAX_CARDS};
use vstd::prelude::*;
use vstd::string::*;

verus! {

/// Where the cards lie at the start of a game.
#[derive(PartialEq, Eq, Debug)]
pub enum Layout {
    /// 3 x 2 layout using square grid.
    Rectangle6,
    /// 4 + 3 layout using hex grid.
    Bricks7,
    /// 2 + 3 + 2 layout using hex grid.
    Hex7,
    /// Any custom layout: the positions in increasing order.
    Custom(Grid, Vec<Coord>),
}

/// What a layout is to the rules: the layout with its positions as a
/// sequence.
pub enum LayoutView {
    Rectangle6,
    Bricks7,
    Hex7,
    Custom(Grid, Seq<Coord>),
}

impl View for Layout {
    type V = LayoutView;

    open spec fn view(&self) -> LayoutView {
        match self {
            Layout::Rectangle6 => LayoutView::Rectangle6,
            Layout::Bricks7 => LayoutView::Bricks7,
            Layout::Hex7 => LayoutView::Hex7,
            Layout::Custom(g, coords) => LayoutView::Custom(*g, coords@),
        }
    }
}

impl Clone for Layout {
    fn clone(&self) -> (l: Layout)
        ensures
            l@ == self@,
    {
        match self {
            Layout::Rectangle6 => Layout::Rectangle6,
            Layout::Bricks7 => Layout::Bricks7,
            Layout::Hex7 => Layout::Hex7,
            Layout::Custom(g, coords) => Layout::Custom(*g, coords.clone()),
        }
    }
}

/// A text that names no layout.
#[derive(PartialEq, Eq, Structural, Debug, Copy, Clone)]
pub struct UnknownLayout;

impl Layout {
    /// The grid that the layout lies on.
    pub open spec fn grid(self) -> Grid {
        match self {
            Layout::Rectangle6 => Grid::Square,
            Layout::Bricks7 => Grid::Hex,
            Layout::Hex7 => Grid::Hex,
            Layout::Custom(g, _) => g,
        }
    }

    /// The positions of the layout, in the order in which cards are dealt to them.
    pub open spec fn positions(self) -> Seq<Coord> {
        match self {
            Layout::Rectangle6 => seq![
                Grid::Square.coord(0, -1),
                Grid::Square.coord(1, -1),
                Grid::Square.coord(2, -1),
                Grid::Square.coord(0, 0),
                Grid::Square.coord(1, 0),
                Grid::Square.coord(2, 0),
            ],
            Layout::Bricks7 => seq![
                Grid::Hex.coord(1, -1),
                Grid::Hex.coord(2, -1),
                Grid::Hex.coord(3, -1),
                Grid::Hex.coord(0, 0),
                Grid::Hex.coord(1, 0),
                Grid::Hex.coord(2, 0),
                Grid::Hex.coord(3, 0),
            ],
            Layout::Hex7 => seq![
                Grid::Hex.coord(1, -1),
                Grid::Hex.coord(2, -1),
                Grid::Hex.coord(0, 0),
                Grid::Hex.coord(1, 0),
                Grid::Hex.coord(2, 0),
                Grid::Hex.coord(0, 1),
                Grid::Hex.coord(1, 1),
            ],
            Layout::Custom(_, coords) => coords@,
        }
    }

    /// A custom layout is valid if it names at most `MAX_CARDS` coordinates of
    /// its grid, in strictly increasing order. The built-in layouts are valid.
    pub open spec fn wf(self) -> bool {
        match self {
            Layout::Custom(g, coords) => {
                &&& coords@.len() <= MAX_CARDS
                &&& forall|i: int| 0 <= i < coords@.len() ==> g.admits(#[trigger] coords@[i])
                &&& forall|i: int, j: int|
                    0 <= i < j < coords@.len() ==> (#[trigger] coords@[i]).key() < (
                    #[trigger] coords@[j]).key()
            },
            _ => true,
        }
    }

    /// The built-in layout that a text names: by its name in lower case or
    /// by its initial and number.
    pub open spec fn named(s: Seq<char>) -> Option<Layout> {
        if s == "rectangle6"@ || s == "r6"@ {
            Some(Layout::Rectangle6)
        } else if s == "bricks7"@ || s == "b7"@ {
            Some(Layout::Bricks7)
        } else if s == "hex7"@ || s == "h7"@ {
            Some(Layout::Hex7)
        } else {
            None
        }
    }

    /// The positions of a valid layout differ from each other, are
    /// coordinates of its grid, and are at most `MAX_CARDS`.
    pub proof fn lemma_positions(self)
        requires
            self.wf(),
        ensures
            self.positions().len() <= MAX_CARDS,
            forall|i: int|
                0 <= i < self.positions().len() ==> self.grid().admits(#[trigger] self.positions()[i]),
            forall|i: int, j: int|
                0 <= i < j < self.positions().len() ==> #[trigger] self.positions()[i]
                    != #[trigger] self.positions()[j],
    {
    }

    /// The grid that the layout lies on.
    pub fn grid_kind(&self) -> (g: Grid)
        ensures
            g == self.grid(),
    {
        match self {
            Layout::Rectangle6 => Grid::Square,
            Layout::Bricks7 => Grid::Hex,
            Layout::Hex7 => Grid::Hex,
            Layout::Custom(g, _) => *g,
        }
    }

    /// The positions of the layout, in the order in which cards are dealt to them.
    pub fn deal_order(&self) -> (r: Vec<Coord>)
        ensures
            r@ == self.positions(),
    {
        let mut r: Vec<Coord> = Vec::new();
        match self {
            Layout::Rectangle6 => {
                r.push(Coord::new_square(0, -1));
                r.push(Coord::new_square(1, -1));
                r.push(Coord::new_square(2, -1));
                r.push(Coord::new_square(0, 0));
                r.push(Coord::new_square(1, 0));
                r.push(Coord::new_square(2, 0));
                assert(r@ =~= self.positions());
            },
            Layout::Bricks7 => {
                r.push(Coord::new_hex(1, -1));
                r.push(Coord::new_hex(2, -1));
                r.push(Coord::new_hex(3, -1));
                r.push(Coord::new_hex(0, 0));
                r.push(Coord::new_hex(1, 0));
                r.push(Coord::new_hex(2, 0));
                r.push(Coord::new_hex(3, 0));
                assert(r@ =~= self.positions());
            },
            Layout::Hex7 => {
                r.push(Coord::new_hex(1, -1));
                r.push(Coord::new_hex(2, -1));
                r.push(Coord::new_hex(0, 0));
                r.push(Coord::new_hex(1, 0));
                r.push(Coord::new_hex(2, 0));
                r.push(Coord::new_hex(0, 1));
                r.push(Coord::new_hex(1, 1));
                assert(r@ =~= self.positions());
            },
            Layout::Custom(_, coords) => {
                r = coords.clone();
            },
        }
        r
    }

    /// Reads the name of a built-in layout.
    pub fn parse(s: &str) -> (r: Result<Layout, UnknownLayout>)
        ensures
            r == match Layout::named(s@) {
                Some(layout) => Ok::<Layout, UnknownLayout>(layout),
                None => Err(UnknownLayout),
            },
    {
        if same_text(s, "rectangle6") || same_text(s, "r6") {
            Ok(Layout::Rectangle6)
        } else if same_text(s, "bricks7") || same_text(s, "b7") {
            Ok(Layout::Bricks7)
        } else if same_text(s, "hex7") || same_text(s, "h7") {
            Ok(Layout::Hex7)
        } else {
            Err(UnknownLayout)
        }
    }
}

/// Whether two texts are the same.
pub fn same_text(a: &str, b: &str) -> (r: bool)
    ensures
        r == (a@ == b@),
{
    let n = a.unicode_len();
    if n != b.unicode_len() {
        return false;
    }
    let mut i: usize = 0;
    while i < n
        invariant
            n == a@.len(),
            n == b@.len(),
            i <= n,
            forall|k: int| 0 <= k < i ==> a@[k] == b@[k],
        decreases n - i,
    {
        if a.get_char(i) != b.get_char(i) {
            return false;
        }
        i += 1;
    }
    assert(a@ =~= b@);
    true
}

impl std::str::FromStr for Layout {
    type Err = UnknownLayout;

    /// Reads the name of a built-in layout, as `Layout::parse` does.
    fn from_str(s: &str) -> (r: Result<Layout, UnknownLayout>)
        ensures
            r == match Layout::named(s@) {
                Some(layout) => Ok::<Layout, UnknownLayout>(layout),
                None => Err(UnknownLayout),
            },
    {
        Layout::parse(s)
    }
}

} // verus!
