use rokumon::console::{command, starts_with, Command, HINT_DEPTH, HINT_SECONDS};

#[test]
fn commands_are_told_by_how_the_line_starts() {
    assert_eq!(command("pos"), Command::Position);
    assert_eq!(command("position please"), Command::Position);
    assert_eq!(command("moves"), Command::Moves);
    assert_eq!(command("help"), Command::Help);
    assert_eq!(command("?"), Command::Help);
    assert_eq!(command("? what"), Command::Help);
    assert_eq!(command("complete"), Command::Completion);
    assert_eq!(command("comp 5"), Command::Completion);
    assert_eq!(command("place w1 at r2c2"), Command::Move);
    assert_eq!(command("move b3 from r1c1 to r1c2"), Command::Move);
    assert_eq!(command(""), Command::Move);
    assert_eq!(command(" pos"), Command::Move);
    assert_eq!(command("Pos"), Command::Move);
    assert_eq!(command("mov"), Command::Move);
}

#[test]
fn hints_take_a_number_or_their_default() {
    assert_eq!(HINT_SECONDS, 10);
    assert_eq!(HINT_DEPTH, 5);
    assert_eq!(command("hint"), Command::Duration(10));
    assert_eq!(command("hint   "), Command::Duration(10));
    assert_eq!(command("hint 3"), Command::Duration(3));
    assert_eq!(command("hints\t 30 and more"), Command::Duration(30));
    assert_eq!(command("dur +7"), Command::Duration(7));
    assert_eq!(command("duration 007"), Command::Duration(7));
    assert_eq!(command("duration 18446744073709551615"), Command::Duration(u64::MAX));
    assert_eq!(command("duration 18446744073709551616"), Command::BadNumber);
    assert_eq!(command("hint 3s"), Command::BadNumber);
    assert_eq!(command("hint -3"), Command::BadNumber);
    assert_eq!(command("hint +"), Command::BadNumber);
    assert_eq!(command("hint three"), Command::BadNumber);
    assert_eq!(command("dep"), Command::Depth(5));
    assert_eq!(command("depth 4"), Command::Depth(4));
    assert_eq!(command("depth 4294967295"), Command::Depth(u32::MAX));
    assert_eq!(command("depth 4294967296"), Command::BadNumber);
    assert_eq!(command("depth\u{3000}12"), Command::Depth(12));
}

#[test]
fn a_start_is_the_first_characters() {
    assert!(starts_with("hint 3", "hint"));
    assert!(starts_with("hint", "hint"));
    assert!(starts_with("hint", ""));
    assert!(!starts_with("hin", "hint"));
    assert!(!starts_with("Hint", "hint"));
    assert!(!starts_with("", "?"));
}
