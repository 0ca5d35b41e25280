use rokumon::board::{Board, Layout};
use rokumon::card::{Deck, DiceColor, Die};
use rokumon::convert::ConversionError;
use rokumon::coord::{BadUserCoord, Coord, UserCoord};
use rokumon::game::GameMove;

#[test]
fn test_coord_conversion() {
    let board = Board::new(Layout::Bricks7, Deck::seven_shuffled());
    let test = |row: u8, card: u8, x: i8, y: i8, z: i8| {
        assert_eq!(
            board.convert_coordinates(&UserCoord { row, card }).unwrap(),
            Coord { x, y, z }
        );
    };
    let test_failure = |row: u8, card: u8| {
        assert!(board.convert_coordinates(&UserCoord { row, card }).is_err());
    };

    test(1, 1, 1, -1, 0);
    test(1, 2, 2, -1, -1);
    test(1, 3, 3, -1, -2);
    test(2, 1, 0, 0, 0);
    test(2, 2, 1, 0, -1);
    test(2, 3, 2, 0, -2);
    test(2, 4, 3, 0, -3);

    test_failure(0, 1);
    test_failure(1, 0);
    test_failure(20, 1);
}

#[test]
fn test_user_coord_parsing() {
    let test = |input: &str, row: u8, card: u8| {
        assert_eq!(input.parse::<UserCoord>().unwrap(), UserCoord { row, card });
    };
    let test_failure = |input: &str| {
        assert!(input.parse::<UserCoord>().is_err());
    };

    test("R1C2", 1, 2);
    test("r4c1", 4, 1);
    test("  r2c2  ", 2, 2);

    test_failure("RR4c1");
    test_failure("R4 C1");
    test_failure("R4C111");
    test_failure("12");
}

#[test]
fn user_coord_parsing_edge_cases() {
    assert_eq!(UserCoord::parse("\t r9C0\u{3000}\n"), Ok(UserCoord::new(9, 0)));
    assert_eq!(UserCoord::parse(""), Err(BadUserCoord));
    assert_eq!(UserCoord::parse("    "), Err(BadUserCoord));
    assert_eq!(UserCoord::parse("r1c"), Err(BadUserCoord));
    assert_eq!(UserCoord::parse("r1c2 x"), Err(BadUserCoord));
    assert_eq!(UserCoord::parse("r+c2"), Err(BadUserCoord));
    assert_eq!(UserCoord::parse("r\u{e9}c2"), Err(BadUserCoord));
    assert_eq!(UserCoord::parse("c1r2"), Err(BadUserCoord));
}

#[test]
fn conversion_errors_tell_what_is_out_of_range() {
    let board = Board::new(Layout::Bricks7, Deck::seven_shuffled());
    let convert = |row: u8, card: u8| board.convert_coordinates(&UserCoord::new(row, card));
    assert_eq!(convert(0, 1), Err(ConversionError::StartsFromOne));
    assert_eq!(convert(1, 0), Err(ConversionError::StartsFromOne));
    assert_eq!(convert(0, 0), Err(ConversionError::StartsFromOne));
    assert_eq!(convert(3, 1), Err(ConversionError::RowOutOfBounds(3)));
    assert_eq!(convert(20, 1), Err(ConversionError::RowOutOfBounds(20)));
    assert_eq!(convert(1, 4), Err(ConversionError::CardOutOfBounds(4)));
    assert_eq!(convert(2, 5), Err(ConversionError::CardOutOfBounds(5)));
    assert_eq!(convert(2, 4), Ok(Coord::new_hex(3, 0)));
}

#[test]
fn user_coordinates_round_trip() {
    for layout in [Layout::Bricks7, Layout::Hex7] {
        let board = Board::new(layout, Deck::seven_shuffled());
        for row in 0..6 {
            for card in 0..6 {
                let uc = UserCoord::new(row, card);
                if let Ok(c) = board.convert_coordinates(&uc) {
                    assert!(board.card_at(&c).is_some());
                    assert_eq!(board.convert_coordinates_to_user(&c), uc);
                }
            }
        }
        for c in board.coords_iter() {
            let uc = board.convert_coordinates_to_user(&c);
            assert_eq!(board.convert_coordinates(&uc), Ok(c));
        }
    }
}

#[test]
fn user_coordinates_count_cards_not_steps() {
    // A board with a gap in a row and a gap between rows.
    let coords = vec![
        Coord::new_square(0, 0),
        Coord::new_square(0, 3),
        Coord::new_square(2, 0),
        Coord::new_square(5, 3),
    ];
    let board = Board::new(
        Layout::Custom(rokumon::board::Grid::Square, coords),
        Deck::ordered("gjgj").unwrap(),
    );
    let uc = UserCoord::new;
    assert_eq!(board.convert_coordinates(&uc(1, 2)), Ok(Coord::new_square(2, 0)));
    assert_eq!(board.convert_coordinates(&uc(2, 2)), Ok(Coord::new_square(5, 3)));
    assert_eq!(board.convert_coordinates_to_user(&Coord::new_square(2, 0)), uc(1, 2));
    assert_eq!(board.convert_coordinates_to_user(&Coord::new_square(5, 3)), uc(2, 2));
    assert_eq!(board.convert_coordinates(&uc(3, 1)), Err(ConversionError::RowOutOfBounds(3)));
}

#[test]
fn moves_convert_coordinate_by_coordinate() {
    let board = Board::new(Layout::Bricks7, Deck::seven_shuffled());
    let die = Die::new(DiceColor::Red, 2);
    let uc = UserCoord::new;
    let c = Coord::new_hex;
    let cases = [
        (GameMove::Place(die, uc(1, 1)), GameMove::Place(die, c(1, -1))),
        (GameMove::Move(die, uc(2, 1), uc(1, 3)), GameMove::Move(die, c(0, 0), c(3, -1))),
        (GameMove::Fight(uc(2, 4)), GameMove::Fight(c(3, 0))),
        (GameMove::Surprise(uc(2, 2), c(0, 1)), GameMove::Surprise(c(1, 0), c(0, 1))),
        (GameMove::Submit, GameMove::Submit),
    ];
    for (user, internal) in cases {
        assert_eq!(board.convert_move_coords(&user), Ok(internal));
        assert_eq!(board.convert_move_coords_to_user(&internal), user);
    }
    assert_eq!(
        board.convert_move_coords(&GameMove::Move(die, uc(1, 9), uc(0, 1))),
        Err(ConversionError::CardOutOfBounds(9))
    );
    assert_eq!(
        board.convert_move_coords(&GameMove::Move(die, uc(1, 1), uc(0, 1))),
        Err(ConversionError::StartsFromOne)
    );
}

#[test]
fn coordinates_are_ordered_by_x_then_y_then_z() {
    let a = Coord::new_hex(0, 1);
    let b = Coord::new_hex(1, -1);
    assert!(a < b);
    assert!(a.order_key() < b.order_key());
    assert_eq!(Coord::new_hex(-3, 5), Coord { x: -3, y: 5, z: -2 });
    assert_eq!(Coord::new_square(-3, 5), Coord { x: -3, y: 5, z: 0 });
    assert_eq!(Coord::new_hex(-128, 1).z, 127);
}
