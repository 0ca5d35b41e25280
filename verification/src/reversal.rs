//! Laws of applying and taking back: taking back undoes applying.

use crate::card::{CardView, Die};
use crate::coord::Coord;
use crate::game::GameMove;
use crate::rules::GameView;
use crate::stock::{lemma_stock_with, lemma_stock_without, stock_with};
use vstd::prelude::*;

verus! {

proof fn lemma_undo_place(g: GameView, die: Die, coord: Coord)
    requires
        g.wf(),
        g.legal(GameMove::Place(die, coord)),
    ensures
        g.apply(GameMove::Place(die, coord)).can_undo(GameMove::Place(die, coord), None),
        g.apply(GameMove::Place(die, coord)).undo(GameMove::Place(die, coord), None) == g,
{
    let m = GameMove::Place(die, coord);
    let first = g.player1_moves;
    let card = g.board.card(coord);
    let a = g.apply(m);
    g.board.lemma_with_card(coord, card.pushed(die));
    lemma_stock_without(g.stock(first), die);
    assert(a.board.card(coord) == card.pushed(die));
    assert(card.pushed(die).popped() =~= card);
    assert(card.pushed(die).dice.last() == die);
    assert(g.history.push(m).drop_last() =~= g.history);
    let u = a.undo(m, None);
    assert(u.board == g.board);
    assert(u =~~= g);
}

proof fn lemma_undo_shift(g: GameView, die: Die, from: Coord, to: Coord)
    requires
        g.wf(),
        g.legal(GameMove::Move(die, from, to)),
    ensures
        g.apply(GameMove::Move(die, from, to)).can_undo(GameMove::Move(die, from, to), None),
        g.apply(GameMove::Move(die, from, to)).undo(GameMove::Move(die, from, to), None) == g,
{
    let m = GameMove::Move(die, from, to);
    let source = g.board.card(from);
    let target = g.board.card(to);
    assert(from != to);
    let lifted = g.board.with_card(from, source.popped());
    g.board.lemma_with_card(from, source.popped());
    assert(lifted.card(to) == target);
    let landed = lifted.with_card(to, target.pushed(die));
    lifted.lemma_with_card(to, target.pushed(die));
    let a = g.apply(m);
    assert(a.board == landed);
    assert(landed.card(to) == target.pushed(die));
    assert(landed.card(from) == source.popped());
    assert(target.pushed(die).popped() =~= target);
    assert(target.pushed(die).dice.last() == die);
    // Taking the die back from the target.
    let relifted = landed.with_card(to, target);
    landed.lemma_with_card(to, target);
    assert(relifted == lifted.with_card(to, target));
    assert(lifted.with_card(to, target) == lifted) by {
        lifted.lemma_with_card(to, target);
    }
    assert(relifted == lifted);
    assert(source.popped().pushed(die) =~= source);
    let restored = relifted.with_card(from, source);
    assert(restored == g.board.with_card(from, source));
    assert(g.board.with_card(from, source) == g.board) by {
        g.board.lemma_with_card(from, source);
    }
    assert(g.history.push(m).drop_last() =~= g.history);
    let u = a.undo(m, None);
    assert(u.board == g.board);
    assert(u =~~= g);
}

proof fn lemma_undo_fight(g: GameView, place: Coord)
    requires
        g.wf(),
        g.legal(GameMove::Fight(place)),
    ensures
        g.apply(GameMove::Fight(place)).can_undo(
            GameMove::Fight(place),
            g.fight_outcome(GameMove::Fight(place)),
        ),
        g.apply(GameMove::Fight(place)).undo(
            GameMove::Fight(place),
            g.fight_outcome(GameMove::Fight(place)),
        ) == g,
{
    let m = GameMove::Fight(place);
    let card = g.board.card(place);
    let f = g.fight_at(place);
    let r = g.fight_outcome(m)->0;
    let owner = f.1.first_players();
    let after = CardView { kind: card.kind, dice: card.dice.drop_last().drop_last().push(f.0) };
    g.board.lemma_with_card(place, after);
    lemma_stock_with(g.stock(owner), f.1);
    let a = g.apply(m);
    assert(a.board.card(place) == after);
    assert(a.stock(owner) == stock_with(g.stock(owner), f.1));
    assert(after.dice.len() == 1);
    assert(after.dice.insert(GameView::index_of_loser(r), r.losing_die) =~= card.dice);
    let restored = CardView {
        kind: after.kind,
        dice: after.dice.insert(GameView::index_of_loser(r), r.losing_die),
    };
    assert(restored =~= card);
    assert(a.board.with_card(place, card) == g.board.with_card(place, card));
    assert(g.history.push(m).drop_last() =~= g.history);
    let u = a.undo(m, g.fight_outcome(m));
    assert(u.board == g.board);
    assert(u =~~= g);
}

proof fn lemma_undo_surprise(g: GameView, from: Coord, to: Coord)
    requires
        g.wf(),
        g.legal(GameMove::Surprise(from, to)),
    ensures
        g.apply(GameMove::Surprise(from, to)).can_undo(GameMove::Surprise(from, to), None),
        g.apply(GameMove::Surprise(from, to)).undo(GameMove::Surprise(from, to), None) == g,
{
    let m = GameMove::Surprise(from, to);
    g.board.lemma_relocated(from, to);
    let a = g.apply(m);
    assert(g.history.push(m).drop_last() =~= g.history);
    let u = a.undo(m, None);
    assert(u.board == g.board);
    assert(u =~~= g);
}

/// Taking back undoes applying: from a valid game in which the move is
/// valid, applying the move and taking it back, with what applying
/// returned, gives the same game: the board with its cached lines and its
/// layout, both players with their names and stocks, the turn, the
/// surprises used, the result and the history. So the defining features
/// are the same too.
pub proof fn lemma_undo_restores(g: GameView, m: GameMove<Coord>)
    requires
        g.wf(),
        g.legal(m),
    ensures
        g.apply(m).can_undo(m, g.fight_outcome(m)),
        g.apply(m).undo(m, g.fight_outcome(m)) == g,
        g.apply(m).undo(m, g.fight_outcome(m)).features() == g.features(),
{
    match m {
        GameMove::Place(die, coord) => {
            lemma_undo_place(g, die, coord);
        },
        GameMove::Move(die, from, to) => {
            lemma_undo_shift(g, die, from, to);
        },
        GameMove::Fight(place) => {
            lemma_undo_fight(g, place);
        },
        GameMove::Surprise(from, to) => {
            lemma_undo_surprise(g, from, to);
        },
        GameMove::Submit => {
            assert(g.history.push(m).drop_last() =~= g.history);
            assert(g.apply(m).undo(m, None) =~~= g);
        },
    }
}

/// Applying a valid move to a valid game gives a valid game.
pub proof fn lemma_apply_wf(g: GameView, m: GameMove<Coord>)
    requires
        g.wf(),
        g.legal(m),
    ensures
        g.apply(m).wf(),
{
    let first = g.player1_moves;
    match m {
        GameMove::Place(die, coord) => {
            g.board.lemma_with_card(coord, g.board.card(coord).pushed(die));
            lemma_stock_without(g.stock(first), die);
        },
        GameMove::Move(die, from, to) => {
            let lifted = g.board.with_card(from, g.board.card(from).popped());
            g.board.lemma_with_card(from, g.board.card(from).popped());
            lifted.lemma_with_card(to, lifted.card(to).pushed(die));
        },
        GameMove::Fight(place) => {
            let card = g.board.card(place);
            let f = g.fight_at(place);
            let after = CardView {
                kind: card.kind,
                dice: card.dice.drop_last().drop_last().push(f.0),
            };
            g.board.lemma_with_card(place, after);
            lemma_stock_with(g.stock(f.1.first_players()), f.1);
        },
        GameMove::Surprise(from, to) => {
            g.board.lemma_relocated(from, to);
        },
        GameMove::Submit => {},
    }
}

} // verus!
