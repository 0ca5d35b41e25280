use rokumon::card::DiceColor::{Black, Red, White};
use rokumon::card::Die;
use rokumon::coord::{Coord, UserCoord};
use rokumon::game::GameMove;
use rokumon::game::GameMove::{Fight, Move, Place, Submit, Surprise};
use rokumon::parsers::{
    coord, die, game_move, natural, parse_move, signed, unsigned, user_coord, BadMove,
};

/// What a reading of the whole text gives.
fn whole<T>(input: &str, r: Option<(T, usize)>) -> Option<T> {
    match r {
        Some((v, end)) if end == input.chars().count() => Some(v),
        _ => None,
    }
}

#[test]
fn test_unsigned() {
    assert_eq!(whole("25", unsigned("25", Some(0), 127)), Some(25));
    assert_eq!(whole("0", unsigned("0", Some(0), 127)), Some(0));

    assert!(unsigned("-1", Some(0), 127).is_none());
    assert!(unsigned("250", Some(0), 127).is_none());
}

#[test]
fn test_signed() {
    assert_eq!(whole("25", signed("25", Some(0))), Some(25));
    assert_eq!(whole("0", signed("0", Some(0))), Some(0));
    assert_eq!(whole("-0", signed("-0", Some(0))), Some(0));
    assert_eq!(whole("-25", signed("-25", Some(0))), Some(-25));

    assert!(signed("250", Some(0)).is_none());
}

#[test]
fn test_die() {
    let d = Die::new;

    assert_eq!(whole("R1", die("R1", Some(0))), Some(d(Red, 1)));
    assert_eq!(whole("R3", die("R3", Some(0))), Some(d(Red, 3)));
    assert_eq!(whole("W1", die("W1", Some(0))), Some(d(White, 1)));
    assert_eq!(whole("b6", die("b6", Some(0))), Some(d(Black, 6)));

    assert!(die("w 1", Some(0)).is_none());
    assert!(die("b7", Some(0)).is_none());
    assert!(die("r0", Some(0)).is_none());
    assert!(die("R0", Some(0)).is_none());
    assert!(die(" R1", Some(0)).is_none());
}

#[test]
fn test_move() {
    let d = Die::new;
    let c = Coord::new_hex;
    let uc = UserCoord::new;
    let read = |input: &str| whole(input, game_move(input));

    assert_eq!(read("place R3 at R1C2"), Some(Place(d(Red, 3), uc(1, 2))));
    assert_eq!(
        read("move W1 from R1C1 to R2C2"),
        Some(Move(d(White, 1), uc(1, 1), uc(2, 2)))
    );
    assert_eq!(read("fight at R2C1"), Some(Fight(uc(2, 1))));
    assert_eq!(read("fight at r1c3"), Some(Fight(uc(1, 3))));
    assert_eq!(
        read("surprise from R2C2 to <0, 1, -1>"),
        Some(Surprise(uc(2, 2), c(0, 1)))
    );
    assert_eq!(
        read("surprise FROM R1C2 TO <0,1, -1>"),
        Some(Surprise(uc(1, 2), c(0, 1)))
    );
    assert_eq!(read("submit"), Some(Submit));
    assert_eq!(read("SUBMIT"), Some(Submit));

    assert!(read("fight R2C1").is_none());
    assert!(read("fightat R2C1").is_none());
    assert!(read("fight at <0,0,0>").is_none());
}

#[test]
fn parse_move_wants_the_whole_text() {
    let uc = UserCoord::new;
    assert_eq!(parse_move("fight at r2c1"), Ok(Fight(uc(2, 1))));
    assert_eq!(parse_move("fight \t at\tr2c1"), Ok(Fight(uc(2, 1))));
    assert_eq!(parse_move("fight at r2c1 "), Err(BadMove));
    assert_eq!(parse_move(" fight at r2c1"), Err(BadMove));
    assert_eq!(parse_move("submit now"), Err(BadMove));
    assert_eq!(parse_move("submi"), Err(BadMove));
    assert_eq!(parse_move(""), Err(BadMove));
    assert_eq!(parse_move("place r7 at r1c1"), Err(BadMove));
    assert_eq!(parse_move("place r1 at r1c"), Err(BadMove));
    assert_eq!(parse_move("place r1 at r256c1"), Err(BadMove));
    assert_eq!(
        parse_move("place r1 at r255c007"),
        Ok(Place(Die::new(Red, 1), uc(255, 7)))
    );
    assert_eq!("Submit".parse::<GameMove<UserCoord>>(), Ok(Submit));
    assert_eq!("resign".parse::<GameMove<UserCoord>>(), Err(BadMove));
}

#[test]
fn numbers_stop_at_their_limits() {
    assert_eq!(unsigned("255", Some(0), 255), Some((255, 3)));
    assert_eq!(unsigned("256", Some(0), 255), None);
    assert_eq!(unsigned("99999999999999999999999", Some(0), 255), None);
    assert_eq!(unsigned("127", Some(0), 127), Some((127, 3)));
    assert_eq!(unsigned("128", Some(0), 127), None);
    assert_eq!(unsigned("12ab", Some(0), 127), Some((12, 2)));
    assert_eq!(unsigned("ab12", Some(2), 127), Some((12, 4)));
    assert_eq!(unsigned("ab12", Some(4), 127), None);
    assert_eq!(unsigned("12", None, 127), None);
    assert_eq!(unsigned("", Some(0), 127), None);
    assert_eq!(signed("-127", Some(0)), Some((-127, 4)));
    assert_eq!(signed("-128", Some(0)), None);
    assert_eq!(signed("--1", Some(0)), None);
    assert_eq!(signed("-", Some(0)), None);
    assert_eq!(signed("+1", Some(0)), None);
}

#[test]
fn coordinates_are_read_in_both_forms() {
    assert_eq!(user_coord("R12c3 ", Some(0)), Some((UserCoord::new(12, 3), 5)));
    assert_eq!(user_coord("R12 c3", Some(0)), None);
    assert_eq!(user_coord("C1R1", Some(0)), None);
    assert_eq!(coord("<3, -2, -1>", Some(0)), Some((Coord { x: 3, y: -2, z: -1 }, 11)));
    // The third number is read, and what is used is what the sum asks for.
    assert_eq!(coord("<3,-2,55>", Some(0)), Some((Coord { x: 3, y: -2, z: -1 }, 9)));
    assert_eq!(coord("<3,  \t-2,0>x", Some(0)), Some((Coord { x: 3, y: -2, z: -1 }, 11)));
    assert_eq!(coord("<3 ,-2,0>", Some(0)), None);
    assert_eq!(coord("<3,-2>", Some(0)), None);
    assert_eq!(coord("<3,-2,0", Some(0)), None);
    assert_eq!(coord("<100,100,0>", Some(0)), None);
    assert_eq!(coord("<-100,-27,127>", Some(0)), Some((Coord { x: -100, y: -27, z: 127 }, 14)));
    assert_eq!(coord("<-100,-28,127>", Some(0)), None);
}

#[test]
fn natural_numbers_up_to_a_limit() {
    assert_eq!(natural("1000 ", Some(0), 1000), Some((1000, 4)));
    assert_eq!(natural("1001", Some(0), 1000), None);
    assert_eq!(natural("18446744073709551615", Some(0), u64::MAX), Some((u64::MAX, 20)));
    assert_eq!(natural("18446744073709551616", Some(0), u64::MAX), None);
    assert_eq!(natural("x7", Some(1), 9), Some((7, 2)));
    assert_eq!(natural("x7", Some(0), 9), None);
    assert_eq!(natural("7", None, 9), None);
}
