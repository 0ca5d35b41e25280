use rokumon::board::Grid::{Hex, Square};
use rokumon::board::{Board, Grid, InvalidBoard, Layout};
use rokumon::layout::UnknownLayout;
use rokumon::card::{Card, CardKind, Deck};
use rokumon::coord::Coord;

#[test]
fn test_rectangle() {
    let b = Board::new(Layout::Rectangle6, Deck::six_shuffled());
    let keys = b.coords_iter();
    let mut it = keys.iter();
    assert_eq!(Some(&Coord::new_square(0, -1)), it.next());
    assert_eq!(Some(&Coord::new_square(0, 0)), it.next());
    assert_eq!(Some(&Coord::new_square(1, -1)), it.next());
    assert_eq!(Some(&Coord::new_square(1, 0)), it.next());
    assert_eq!(Some(&Coord::new_square(2, -1)), it.next());
    assert_eq!(Some(&Coord::new_square(2, 0)), it.next());
    assert_eq!(None, it.next());
}

#[test]
fn test_bricks() {
    let b = Board::new(Layout::Bricks7, Deck::seven_shuffled());
    let keys = b.coords_iter();
    let mut it = keys.iter();
    assert_eq!(Some(&Coord::new_hex(0, 0)), it.next());
    assert_eq!(Some(&Coord::new_hex(1, -1)), it.next());
    assert_eq!(Some(&Coord::new_hex(1, 0)), it.next());
    assert_eq!(Some(&Coord::new_hex(2, -1)), it.next());
    assert_eq!(Some(&Coord::new_hex(2, 0)), it.next());
    assert_eq!(Some(&Coord::new_hex(3, -1)), it.next());
    assert_eq!(Some(&Coord::new_hex(3, 0)), it.next());
    assert_eq!(None, it.next());
}

#[test]
fn test_hex() {
    let b = Board::new(Layout::Hex7, Deck::seven_shuffled());
    let keys = b.coords_iter();
    let mut it = keys.iter();
    assert_eq!(Some(&Coord::new_hex(0, 0)), it.next());
    assert_eq!(Some(&Coord::new_hex(0, 1)), it.next());
    assert_eq!(Some(&Coord::new_hex(1, -1)), it.next());
    assert_eq!(Some(&Coord::new_hex(1, 0)), it.next());
    assert_eq!(Some(&Coord::new_hex(1, 1)), it.next());
    assert_eq!(Some(&Coord::new_hex(2, -1)), it.next());
    assert_eq!(Some(&Coord::new_hex(2, 0)), it.next());
    assert_eq!(None, it.next());
}

#[test]
fn adjacency_and_lines_on_both_grids() {
    let h = Coord::new_hex;
    let s = Coord::new_square;
    assert_eq!(Board::distance(&Hex, &h(0, 0), &h(1, -1)), 1);
    assert_eq!(Board::distance(&Hex, &h(0, 0), &h(1, 1)), 2);
    assert_eq!(Board::distance(&Hex, &h(0, 0), &h(3, -1)), 3);
    assert_eq!(Board::distance(&Hex, &h(2, 0), &h(2, 0)), 0);
    assert_eq!(Board::distance(&Square, &s(0, 0), &s(1, -1)), 2);
    assert_eq!(Board::distance(&Square, &s(0, 0), &s(0, -1)), 1);
    assert_eq!(Board::distance(&Square, &s(-3, 4), &s(2, -1)), 10);
    let far = Coord { x: 127, y: 127, z: 127 };
    let near = Coord { x: -128, y: -128, z: -128 };
    assert_eq!(Board::distance(&Hex, &far, &near), 255);
    assert_eq!(Board::distance(&Square, &far, &near), 510);

    // A straight run of three.
    assert!(Board::are_three_adjacent(&Hex, &h(0, 0), &h(1, 0), &h(2, 0)));
    assert!(Board::are_three_in_line(&Hex, &h(0, 0), &h(1, 0), &h(2, 0)));
    // In line with a gap.
    assert!(!Board::are_three_adjacent(&Hex, &h(0, 0), &h(1, 0), &h(3, 0)));
    assert!(Board::are_three_in_line(&Hex, &h(0, 0), &h(1, 0), &h(3, 0)));
    // Adjacent around a corner.
    assert!(Board::are_three_adjacent(&Hex, &h(0, 0), &h(1, 0), &h(1, -1)));
    assert!(!Board::are_three_in_line(&Hex, &h(0, 0), &h(1, 0), &h(1, -1)));
    // The third hex direction.
    assert!(Board::are_three_in_line(&Hex, &h(0, 1), &h(1, 0), &h(2, -1)));
    assert!(!Board::are_three_in_line(&Square, &s(0, 1), &s(1, 0), &s(2, -1)));
    assert!(Board::are_three_in_line(&Square, &s(0, 1), &s(0, 0), &s(0, -1)));
}

#[test]
fn cached_lines_of_the_layouts() {
    let h = Coord::new_hex;
    let s = Coord::new_square;
    let b = Board::new(Layout::Bricks7, Deck::seven_shuffled());
    assert_eq!(
        b.adj_triples_iter(),
        &vec![
            (h(0, 0), h(1, 0), h(2, 0)),
            (h(1, -1), h(2, -1), h(3, -1)),
            (h(1, 0), h(2, 0), h(3, 0)),
        ]
    );
    assert_eq!(b.num_of_adjacent_triples(h(0, 0)), 1);
    assert_eq!(b.num_of_adjacent_triples(h(1, 0)), 2);
    assert_eq!(b.num_of_adjacent_triples(h(2, -1)), 1);
    assert_eq!(b.num_of_adjacent_triples(h(5, 5)), 0);

    let b = Board::new(Layout::Rectangle6, Deck::six_shuffled());
    assert_eq!(
        b.adj_triples_iter(),
        &vec![
            (s(0, -1), s(1, -1), s(2, -1)),
            (s(0, 0), s(1, 0), s(2, 0)),
        ]
    );

    let b = Board::new(Layout::Hex7, Deck::seven_shuffled());
    assert_eq!(
        b.adj_triples_iter(),
        &vec![
            (h(0, 0), h(1, 0), h(2, 0)),
            (h(0, 1), h(1, 0), h(2, -1)),
            (h(1, -1), h(1, 0), h(1, 1)),
        ]
    );
}

#[test]
fn board_queries() {
    let h = Coord::new_hex;
    let mut b = Board::new(Layout::Bricks7, Deck::ordered("gggjjjj").unwrap());
    assert_eq!(b.bounding_box(), (0, 3, -1, 0));
    assert_eq!(b.top_row(), -1);
    assert_eq!(b.bottom_row(), 0);
    assert_eq!(b.new_coord(2, -1), h(2, -1));
    assert_eq!(b.row_positions_iter(-1), vec![h(1, -1), h(2, -1), h(3, -1)]);
    assert_eq!(b.row_positions_iter(0), vec![h(0, 0), h(1, 0), h(2, 0), h(3, 0)]);
    assert_eq!(b.row_positions_iter(1), vec![]);
    assert_eq!(b.row_cards_iter(-1).len(), 3);
    assert!(b.row_cards_iter(-1).iter().all(|c| c.kind == rokumon::card::CardKind::Gold));
    assert!(b.row_iter(0).iter().all(|(_, c)| c.kind == rokumon::card::CardKind::Jade));
    assert_eq!(b.cards_iter().len(), 7);
    assert_eq!(b.coord_cards_iter().len(), 7);
    assert_eq!(b.empty_cards_iter().len(), 7);
    assert!(b.has_empty_card_at(&h(0, 0)));
    assert!(!b.has_empty_card_at(&h(0, 1)));
    assert!(b.card_at(&h(0, 1)).is_none());
    assert_eq!(b.neighbours_iter_without(h(1, 0), h(0, 0)), vec![h(1, -1), h(2, -1), h(2, 0)]);
    assert_eq!(b.neighbours_iter_without(h(1, 0), h(5, 5)).len(), 4);

    let red = rokumon::card::Die::new(rokumon::card::DiceColor::Red, 2);
    let black = rokumon::card::Die::new(rokumon::card::DiceColor::Black, 5);
    b.card_at_mut(&h(1, 0)).unwrap().dice.push(red);
    b.push_die(&h(1, 0), black);
    b.push_die(&h(3, -1), red);
    assert!(b.card_at_mut(&h(7, 7)).is_none());
    assert_eq!(b.empty_cards_iter().len(), 5);
    assert!(!b.has_empty_card_at(&h(1, 0)));
    assert_eq!(b.active_dice_iter(true), vec![(h(3, -1), red)]);
    assert_eq!(b.active_dice_iter(false), vec![(h(1, 0), black)]);
    assert_eq!(b.top_die_at(&h(1, 0)), Some(black));
    assert_eq!(b.top_die_at(&h(0, 0)), None);
    assert_eq!(b.pop_die(&h(1, 0)), black);
    assert_eq!(b.top_die_at(&h(1, 0)), Some(red));

    // A card that goes elsewhere takes its dice along, and the lines follow.
    b.relocate(&h(3, -1), &h(0, 1));
    assert_eq!(b.coords_iter()[0], h(0, 0));
    assert_eq!(b.coords_iter()[1], h(0, 1));
    assert_eq!(b.top_die_at(&h(0, 1)), Some(red));
    assert_eq!(b.bounding_box(), (0, 3, -1, 1));
    assert_eq!(
        b.adj_triples_iter(),
        &vec![
            (h(0, 0), h(1, 0), h(2, 0)),
            (h(0, 1), h(1, 0), h(2, -1)),
            (h(1, 0), h(2, 0), h(3, 0)),
        ]
    );
    let targets = b.surprise_targets();
    assert_eq!(targets.len(), 6 * 5);
    assert_eq!(targets[0], h(-1, -2));
    assert_eq!(targets[1], h(-1, -1));
    assert_eq!(targets[29], h(4, 2));
}

#[test]
fn boards_from_cards_are_checked() {
    let h = Coord::new_hex;
    let card = || Card::new(CardKind::Jade);
    let build = |grid: Grid, coords: Vec<Coord>| {
        Board::from_cards(grid, Layout::Bricks7, coords.into_iter().map(|c| (c, card())).collect())
            .map(|b| b.coords_iter())
    };
    assert_eq!(build(Grid::Hex, vec![h(0, 0), h(1, 0)]), Ok(vec![h(0, 0), h(1, 0)]));
    assert_eq!(build(Grid::Hex, vec![]), Ok(vec![]));
    assert_eq!(
        build(Grid::Hex, vec![h(1, 0), h(0, 0)]),
        Err(InvalidBoard::OutOfOrder(h(0, 0)))
    );
    assert_eq!(
        build(Grid::Hex, vec![h(0, 0), h(0, 0)]),
        Err(InvalidBoard::OutOfOrder(h(0, 0)))
    );
    assert_eq!(build(Grid::Square, vec![h(1, 0)]), Err(InvalidBoard::OffGrid(h(1, 0))));
    let off = Coord { x: 1, y: 1, z: 5 };
    assert_eq!(build(Grid::Hex, vec![off]), Err(InvalidBoard::OffGrid(off)));
    // Every coordinate of the grid will do, up to the ends of the numbers.
    assert_eq!(build(Grid::Hex, vec![h(64, 0)]), Ok(vec![h(64, 0)]));
    assert_eq!(
        build(Grid::Hex, vec![h(-128, 1), h(127, 1)]),
        Ok(vec![h(-128, 1), h(127, 1)])
    );
    let many: Vec<Coord> = (0..129).map(|i| Coord::new_square((i / 100) as i8, (i % 100 - 50) as i8)).collect();
    assert_eq!(build(Grid::Square, many), Err(InvalidBoard::TooManyCards));
}

#[test]
fn layouts_are_read_by_name() {
    assert_eq!(Layout::parse("rectangle6"), Ok(Layout::Rectangle6));
    assert_eq!(Layout::parse("r6"), Ok(Layout::Rectangle6));
    assert_eq!(Layout::parse("bricks7"), Ok(Layout::Bricks7));
    assert_eq!(Layout::parse("b7"), Ok(Layout::Bricks7));
    assert_eq!("hex7".parse::<Layout>(), Ok(Layout::Hex7));
    assert_eq!("h7".parse::<Layout>(), Ok(Layout::Hex7));
    assert_eq!(Layout::parse("Bricks7"), Err(UnknownLayout));
    assert_eq!(Layout::parse("b"), Err(UnknownLayout));
    assert_eq!(Layout::parse(""), Err(UnknownLayout));
    assert_eq!(Layout::Bricks7.deal_order().len(), 7);
    assert_eq!(Layout::Rectangle6.deal_order()[3], Coord::new_square(0, 0));
}

#[test]
fn surprise_targets_stop_at_the_ends_of_the_numbers() {
    let h = Coord::new_hex;
    let board = Board::new(
        Layout::Custom(Grid::Hex, vec![h(126, 0), h(127, 0), h(127, 1)]),
        Deck::ordered("gjg").unwrap(),
    );
    assert_eq!(board.bounding_box(), (126, 127, 0, 1));
    let targets = board.surprise_targets();
    // x from 125 to 127, y from -1 to 2, without the coordinates whose third
    // number would be less than -128: (127, 2).
    assert_eq!(targets.len(), 3 * 4 - 1);
    assert_eq!(targets[0], h(125, -1));
    assert_eq!(targets[targets.len() - 1], h(127, 1));
    assert!(targets.iter().all(|c| c.x as i32 + c.y as i32 + c.z as i32 == 0));

    let s = Coord::new_square;
    let board = Board::new(
        Layout::Custom(Grid::Square, vec![s(-128, -128), s(-128, -127)]),
        Deck::ordered("gj").unwrap(),
    );
    let targets = board.surprise_targets();
    assert_eq!(targets.len(), 2 * 3);
    assert_eq!(targets[0], s(-128, -128));
    assert_eq!(targets[5], s(-127, -126));
}
