//! Laws of the result: what three in a stack and three in a row mean.

use crate::board::BoardView;
use crate::cells::Cell;
use crate::game::GameResult;
use crate::rules::{stack_result_from, winner_of};
use vstd::prelude::*;

verus! {

/// Whether the card of cell `i` is the first, from cell `from` on, that
/// holds more than two dice.
pub open spec fn first_stack(cells: Seq<Cell>, from: int, i: int) -> bool {
    &&& from <= i < cells.len()
    &&& cells[i].1.dice.len() > 2
    &&& forall|k: int| from <= k < i ==> (#[trigger] cells[k]).1.dice.len() <= 2
}

/// Three in a stack: there is no winner if and only if no card holds more
/// than two dice, and else the winner owns the bottom die of the first such
/// card.
pub proof fn lemma_stack_result(cells: Seq<Cell>, from: int)
    requires
        0 <= from,
    ensures
        stack_result_from(cells, from) == GameResult::InProgress <==> forall|k: int|
            from <= k < cells.len() ==> (#[trigger] cells[k]).1.dice.len() <= 2,
        stack_result_from(cells, from) != GameResult::InProgress ==> exists|i: int|
            #[trigger] first_stack(cells, from, i) && stack_result_from(cells, from) == winner_of(
                cells[i].1.dice[0],
            ),
    decreases cells.len() - from,
{
    if from < cells.len() {
        if cells[from].1.dice.len() > 2 {
            assert(first_stack(cells, from, from));
        } else {
            lemma_stack_result(cells, from + 1);
            if stack_result_from(cells, from) != GameResult::InProgress {
                let i = choose|i: int|
                    #[trigger] first_stack(cells, from + 1, i) && stack_result_from(
                        cells,
                        from + 1,
                    ) == winner_of(cells[i].1.dice[0]);
                assert(first_stack(cells, from, i));
            } else {
                assert forall|k: int| from <= k < cells.len() implies (
                #[trigger] cells[k]).1.dice.len() <= 2 by {
                    if k > from {
                        assert(cells[k].1.dice.len() <= 2);
                    }
                }
            }
        }
    }
}

impl BoardView {
    /// Whether line `i` is the first cached line, from line `from` on, that
    /// one player fills.
    pub open spec fn first_line(self, from: int, i: int) -> bool {
        &&& from <= i < self.triples.len()
        &&& self.line_result(self.triples[i]) != GameResult::InProgress
        &&& forall|k: int|
            from <= k < i ==> self.line_result(#[trigger] self.triples[k])
                == GameResult::InProgress
    }

    /// Three in a row: there is no winner if and only if no player fills a
    /// cached line, and else the winner is the player who fills the first
    /// such line.
    pub proof fn lemma_row_result(self, from: int)
        requires
            0 <= from,
        ensures
            self.row_result_from(from) == GameResult::InProgress <==> forall|k: int|
                from <= k < self.triples.len() ==> self.line_result(#[trigger] self.triples[k])
                    == GameResult::InProgress,
            self.row_result_from(from) != GameResult::InProgress ==> exists|i: int|
                #[trigger] self.first_line(from, i) && self.row_result_from(from)
                    == self.line_result(self.triples[i]),
        decreases self.triples.len() - from,
    {
        if from < self.triples.len() {
            if self.line_result(self.triples[from]) != GameResult::InProgress {
                assert(self.first_line(from, from));
            } else {
                self.lemma_row_result(from + 1);
                if self.row_result_from(from) != GameResult::InProgress {
                    let i = choose|i: int|
                        #[trigger] self.first_line(from + 1, i) && self.row_result_from(from + 1)
                            == self.line_result(self.triples[i]);
                    assert(self.first_line(from, i));
                } else {
                    assert forall|k: int| from <= k < self.triples.len() implies self.line_result(
                        #[trigger] self.triples[k],
                    ) == GameResult::InProgress by {
                        if k > from {
                            assert(self.line_result(self.triples[k]) == GameResult::InProgress);
                        }
                    }
                }
            }
        }
    }
}

} // verus!
