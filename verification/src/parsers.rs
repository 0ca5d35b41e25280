//! Reading moves from text.

use crate::card::{DiceColor, Die};
use crate::coord::{digit, digit_value, Coord, UserCoord};
use crate::game::GameMove;
use vstd::prelude::*;
use vstd::string::*;

verus! {

// The moves are written like this:
//
// - place W1 at R2C2
// - move B3 from R1C1 to R1C2
// - fight at R2C3
// - surprise from R1C2 to <3, -2, -1>
// - submit
//
// Words and letters may be in upper or lower case. Between the parts of a
// move stands at least one space or tab, and nothing stands before or after.
//
// In the contracts a position in the text is a number from zero on, and a
// reading that has failed is at position -1 and stays there.
/// A text that is no move.
#[derive(PartialEq, Eq, Structural, Debug, Copy, Clone)]
pub struct BadMove;

/// Whether `c` is the lower-case letter `l` or its upper-case form.
pub open spec fn is_letter(c: char, l: char) -> bool {
    c == l || c as u32 + 32 == l as u32
}

/// Whether the letters of `w`, in either case, stand in the text from `i` on.
pub open spec fn has_word(s: Seq<char>, i: int, w: Seq<char>) -> bool {
    &&& 0 <= i
    &&& i + w.len() <= s.len()
    &&& forall|k: int| 0 <= k < w.len() ==> is_letter(s[i + k], #[trigger] w[k])
}

/// The position after the word `w`, which has to stand at `i`.
pub open spec fn after_word(s: Seq<char>, i: int, w: Seq<char>) -> int {
    if has_word(s, i, w) {
        i + w.len()
    } else {
        -1
    }
}

/// The number of spaces and tabs from `i` on.
pub open spec fn blanks(s: Seq<char>, i: int) -> nat
    decreases s.len() - i,
{
    if 0 <= i < s.len() && (s[i] == ' ' || s[i] == '\t') {
        1 + blanks(s, i + 1)
    } else {
        0
    }
}

/// The position after the spaces and tabs at `i`, of which there has to be one.
pub open spec fn after_gap(s: Seq<char>, i: int) -> int {
    if i >= 0 && blanks(s, i) >= 1 {
        i + blanks(s, i)
    } else {
        -1
    }
}

/// The number of decimal digits from `i` on.
pub open spec fn digits(s: Seq<char>, i: int) -> nat
    decreases s.len() - i,
{
    if 0 <= i < s.len() && digit(s[i]) is Some {
        1 + digits(s, i + 1)
    } else {
        0
    }
}

/// The number that the `n` digits from `i` on stand for.
pub open spec fn number(s: Seq<char>, i: int, n: int) -> int
    decreases n,
{
    if n <= 0 {
        0
    } else {
        number(s, i, n - 1) * 10 + digit(s[i + n - 1])->0
    }
}

/// The number at `i`, which has as many digits as follow each other there
/// and is at most `max`, and the position after it.
pub open spec fn unsigned_at(s: Seq<char>, i: int, max: int) -> (int, int) {
    let n = digits(s, i) as int;
    if i >= 0 && n >= 1 && number(s, i, n) <= max {
        (number(s, i, n), i + n)
    } else {
        (0, -1)
    }
}

/// The number from -127 to 127 at `i`, with or without a minus sign, and
/// the position after it.
pub open spec fn signed_at(s: Seq<char>, i: int) -> (int, int) {
    if 0 <= i < s.len() && s[i] == '-' {
        let u = unsigned_at(s, i + 1, 127);
        (-u.0, u.1)
    } else {
        unsigned_at(s, i, 127)
    }
}

/// The color that a letter stands for.
pub open spec fn color_of(c: char) -> Option<DiceColor> {
    if is_letter(c, 'b') {
        Some(DiceColor::Black)
    } else if is_letter(c, 'w') {
        Some(DiceColor::White)
    } else if is_letter(c, 'r') {
        Some(DiceColor::Red)
    } else {
        None
    }
}

/// The die at `i`, the letter of its color and a value from 1 to 6, and the
/// position after it.
pub open spec fn die_at(s: Seq<char>, i: int) -> (Die, int) {
    if 0 <= i && i + 2 <= s.len() && color_of(s[i]) is Some && '1' <= s[i + 1] <= '6' {
        (Die { color: color_of(s[i])->0, value: digit(s[i + 1])->0 }, i + 2)
    } else {
        (Die { color: DiceColor::Red, value: 0 }, -1)
    }
}

/// The position after the character `c`, which has to stand at `i`.
pub open spec fn after_char(s: Seq<char>, i: int, c: char) -> int {
    if 0 <= i < s.len() && s[i] == c {
        i + 1
    } else {
        -1
    }
}

/// The position after the letter `l`, which has to stand at `i` in either case.
pub open spec fn after_letter(s: Seq<char>, i: int, l: char) -> int {
    if 0 <= i < s.len() && is_letter(s[i], l) {
        i + 1
    } else {
        -1
    }
}

/// The user coordinate at `i`, like `R1C2` with numbers up to 255, and the
/// position after it.
pub open spec fn user_coord_at(s: Seq<char>, i: int) -> (UserCoord, int) {
    let row = unsigned_at(s, after_letter(s, i, 'r'), 255);
    let card = unsigned_at(s, after_letter(s, row.1, 'c'), 255);
    (UserCoord { row: row.0 as u8, card: card.0 as u8 }, card.1)
}

/// The position after the comma at `i` and the spaces and tabs behind it.
pub open spec fn after_comma(s: Seq<char>, i: int) -> int {
    if after_char(s, i, ',') >= 0 {
        i + 1 + blanks(s, i + 1)
    } else {
        -1
    }
}

/// The hex coordinate at `i`, like `<3, -2, -1>`, and the position after
/// it. The third number is read and not used: it is what makes the sum zero,
/// and that has to be a number from -128 to 127.
pub open spec fn coord_at(s: Seq<char>, i: int) -> (Coord, int) {
    let x = signed_at(s, after_char(s, i, '<'));
    let y = signed_at(s, after_comma(s, x.1));
    let z = signed_at(s, after_comma(s, y.1));
    let end = after_char(s, z.1, '>');
    if end >= 0 && -128 <= -x.0 - y.0 <= 127 {
        (Coord { x: x.0 as i8, y: y.0 as i8, z: (-x.0 - y.0) as i8 }, end)
    } else {
        (Coord { x: 0, y: 0, z: 0 }, -1)
    }
}

/// `place`, a die, `at`, a user coordinate.
pub open spec fn place_at(s: Seq<char>) -> (GameMove<UserCoord>, int) {
    let d = die_at(s, after_gap(s, after_word(s, 0, "place"@)));
    let c = user_coord_at(s, after_gap(s, after_word(s, after_gap(s, d.1), "at"@)));
    (GameMove::Place(d.0, c.0), c.1)
}

/// `move`, a die, `from`, a user coordinate, `to`, a user coordinate.
pub open spec fn move_at(s: Seq<char>) -> (GameMove<UserCoord>, int) {
    let d = die_at(s, after_gap(s, after_word(s, 0, "move"@)));
    let from = user_coord_at(s, after_gap(s, after_word(s, after_gap(s, d.1), "from"@)));
    let to = user_coord_at(s, after_gap(s, after_word(s, after_gap(s, from.1), "to"@)));
    (GameMove::Move(d.0, from.0, to.0), to.1)
}

/// `fight`, `at`, a user coordinate.
pub open spec fn fight_at(s: Seq<char>) -> (GameMove<UserCoord>, int) {
    let c = user_coord_at(
        s,
        after_gap(s, after_word(s, after_gap(s, after_word(s, 0, "fight"@)), "at"@)),
    );
    (GameMove::Fight(c.0), c.1)
}

/// `surprise`, `from`, a user coordinate, `to`, a hex coordinate.
pub open spec fn surprise_at(s: Seq<char>) -> (GameMove<UserCoord>, int) {
    let from = user_coord_at(
        s,
        after_gap(s, after_word(s, after_gap(s, after_word(s, 0, "surprise"@)), "from"@)),
    );
    let to = coord_at(s, after_gap(s, after_word(s, after_gap(s, from.1), "to"@)));
    (GameMove::Surprise(from.0, to.0), to.1)
}

/// The move that stands at the start of the text, and the position after
/// it: the first of the five kinds that can be read.
pub open spec fn move_at_start(s: Seq<char>) -> (GameMove<UserCoord>, int) {
    if place_at(s).1 >= 0 {
        place_at(s)
    } else if move_at(s).1 >= 0 {
        move_at(s)
    } else if fight_at(s).1 >= 0 {
        fight_at(s)
    } else if surprise_at(s).1 >= 0 {
        surprise_at(s)
    } else {
        (GameMove::Submit, after_word(s, 0, "submit"@))
    }
}

/// The move that the whole text stands for, if it stands for one.
pub open spec fn move_of(s: Seq<char>) -> Option<GameMove<UserCoord>> {
    if move_at_start(s).1 == s.len() {
        Some(move_at_start(s).0)
    } else {
        None
    }
}

/// The position that an executable reading has reached.
pub open spec fn reached(p: Option<usize>) -> int {
    match p {
        Some(i) => i as int,
        None => -1,
    }
}

/// The value and the position that an executable reading has reached.
pub open spec fn read<T>(r: Option<(T, usize)>, otherwise: T) -> (T, int) {
    match r {
        Some((v, i)) => (v, i as int),
        None => (otherwise, -1),
    }
}

/// Whether `c` is the lower-case letter `l` or its upper-case form.
fn letter_is(c: char, l: char) -> (b: bool)
    ensures
        b == is_letter(c, l),
{
    c == l || (c as u32) < 0x10ffff && c as u32 + 32 == l as u32
}

/// The position after the word `w`, if it stands at `i`.
#[verifier::loop_isolation(false)]
fn word(s: &str, i: Option<usize>, w: &str) -> (r: Option<usize>)
    ensures
        reached(r) == after_word(s@, reached(i), w@),
{
    let i = match i {
        Some(i) => i,
        None => {
            return None;
        },
    };
    let n = s.unicode_len();
    let m = w.unicode_len();
    if i > n || m > n - i {
        return None;
    }
    let mut k: usize = 0;
    while k < m
        invariant
            n == s@.len(),
            m == w@.len(),
            i + m <= n,
            k <= m,
            forall|j: int| 0 <= j < k ==> is_letter(s@[i + j], #[trigger] w@[j]),
        decreases m - k,
    {
        if !letter_is(s.get_char(i + k), w.get_char(k)) {
            assert(!is_letter(s@[i + k], w@[k as int]));
            return None;
        }
        k += 1;
    }
    Some(i + m)
}

/// The position after the spaces and tabs at `i`, if there is at least
/// `least` of them.
fn gap(s: &str, i: Option<usize>, least: usize) -> (r: Option<usize>)
    ensures
        reached(r) == if reached(i) >= 0 && blanks(s@, reached(i)) >= least {
            reached(i) + blanks(s@, reached(i))
        } else {
            -1
        },
{
    let i = match i {
        Some(i) => i,
        None => {
            return None;
        },
    };
    let n = s.unicode_len();
    if i >= n {
        return if least == 0 {
            Some(i)
        } else {
            None
        };
    }
    let mut j: usize = i;
    while j < n && (s.get_char(j) == ' ' || s.get_char(j) == '\t')
        invariant
            n == s@.len(),
            i <= j <= n,
            blanks(s@, i as int) == (j - i) + blanks(s@, j as int),
        decreases n - j,
    {
        j += 1;
    }
    if j - i >= least {
        Some(j)
    } else {
        None
    }
}

/// Numbers of more digits are at least as great.
proof fn lemma_number_grows(s: Seq<char>, i: int, a: int, b: int)
    requires
        0 <= a <= b,
        forall|k: int| 0 <= k < b ==> digit(#[trigger] s[i + k]) is Some,
    ensures
        number(s, i, a) <= number(s, i, b),
        0 <= number(s, i, a),
    decreases b,
{
    if a < b {
        lemma_number_grows(s, i, a, b - 1);
        assert(digit(s[i + (b - 1)]) is Some);
    } else if a > 0 {
        lemma_number_grows(s, i, a - 1, a - 1);
        assert(digit(s[i + (a - 1)]) is Some);
    }
}

/// The number at `i`, if it is at most `max`, and the position after it.
pub fn natural(s: &str, i: Option<usize>, max: u64) -> (r: Option<(u64, usize)>)
    ensures
        read(r, 0).1 == unsigned_at(s@, reached(i), max as int).1,
        read(r, 0).0 == unsigned_at(s@, reached(i), max as int).0,
{
    let i = match i {
        Some(i) => i,
        None => {
            return None;
        },
    };
    let n = s.unicode_len();
    if i >= n {
        return None;
    }
    let mut j: usize = i;
    let mut value: u128 = 0;
    let mut fits = true;
    while j < n && digit_value(s.get_char(j)).is_some()
        invariant
            n == s@.len(),
            i <= j <= n,
            digits(s@, i as int) == (j - i) + digits(s@, j as int),
            forall|k: int| 0 <= k < j - i ==> digit(#[trigger] s@[i + k]) is Some,
            fits ==> value == number(s@, i as int, j - i) && value <= max,
            !fits ==> number(s@, i as int, j - i) > max,
        decreases n - j,
    {
        let d = match digit_value(s.get_char(j)) {
            Some(d) => d,
            None => 0,
        };
        proof {
            assert(s@[i + (j - i)] == s@[j as int]);
            assert forall|k: int| 0 <= k < j + 1 - i implies digit(#[trigger] s@[i + k]) is Some by {
                if k == j - i {
                    assert(s@[i + k] == s@[j as int]);
                }
            }
            lemma_number_grows(s@, i as int, j - i, j + 1 - i);
        }
        if fits {
            value = value * 10 + d as u128;
            if value > max as u128 {
                fits = false;
            }
        }
        j += 1;
    }
    if fits && j > i {
        Some((value as u64, j))
    } else {
        None
    }
}

/// The number at `i`, if it is at most `max`, and the position after it.
pub fn unsigned(s: &str, i: Option<usize>, max: u8) -> (r: Option<(u8, usize)>)
    ensures
        read(r, 0).1 == unsigned_at(s@, reached(i), max as int).1,
        read(r, 0).0 == unsigned_at(s@, reached(i), max as int).0,
{
    match natural(s, i, max as u64) {
        Some((value, end)) => Some((value as u8, end)),
        None => None,
    }
}

/// The number from -127 to 127 at `i`, with or without a minus sign, and
/// the position after it.
pub fn signed(s: &str, i: Option<usize>) -> (r: Option<(i8, usize)>)
    ensures
        read(r, 0).1 == signed_at(s@, reached(i)).1,
        r is Some ==> read(r, 0).0 == signed_at(s@, reached(i)).0,
{
    let at = match i {
        Some(at) => at,
        None => {
            return None;
        },
    };
    if at < s.unicode_len() && s.get_char(at) == '-' {
        match unsigned(s, Some(at + 1), 127) {
            Some((v, j)) => Some((-(v as i8), j)),
            None => None,
        }
    } else {
        match unsigned(s, i, 127) {
            Some((v, j)) => Some((v as i8, j)),
            None => None,
        }
    }
}

/// The color that a letter stands for.
pub fn die_color(c: char) -> (r: Option<DiceColor>)
    ensures
        r == color_of(c),
{
    if letter_is(c, 'b') {
        Some(DiceColor::Black)
    } else if letter_is(c, 'w') {
        Some(DiceColor::White)
    } else if letter_is(c, 'r') {
        Some(DiceColor::Red)
    } else {
        None
    }
}

/// The die at `i` and the position after it.
pub fn die(s: &str, i: Option<usize>) -> (r: Option<(Die, usize)>)
    ensures
        read(r, Die { color: DiceColor::Red, value: 0 }) == die_at(s@, reached(i)),
{
    let i = match i {
        Some(i) => i,
        None => {
            return None;
        },
    };
    let n = s.unicode_len();
    if i >= n || n - i < 2 {
        return None;
    }
    let value = s.get_char(i + 1);
    match die_color(s.get_char(i)) {
        Some(color) => {
            if '1' <= value && value <= '6' {
                match digit_value(value) {
                    Some(value) => Some((Die::new(color, value), i + 2)),
                    None => None,
                }
            } else {
                None
            }
        },
        None => None,
    }
}

/// The position after the character `c`, if it stands at `i`.
fn character(s: &str, i: Option<usize>, c: char) -> (r: Option<usize>)
    ensures
        reached(r) == after_char(s@, reached(i), c),
{
    match i {
        Some(i) => {
            if i < s.unicode_len() && s.get_char(i) == c {
                Some(i + 1)
            } else {
                None
            }
        },
        None => None,
    }
}

/// The position after the letter `l`, if it stands at `i` in either case.
fn letter(s: &str, i: Option<usize>, l: char) -> (r: Option<usize>)
    ensures
        reached(r) == after_letter(s@, reached(i), l),
{
    match i {
        Some(i) => {
            if i < s.unicode_len() && letter_is(s.get_char(i), l) {
                Some(i + 1)
            } else {
                None
            }
        },
        None => None,
    }
}

/// The user coordinate at `i` and the position after it.
pub fn user_coord(s: &str, i: Option<usize>) -> (r: Option<(UserCoord, usize)>)
    ensures
        read(r, UserCoord { row: 0, card: 0 }).1 == user_coord_at(s@, reached(i)).1,
        r is Some ==> read(r, UserCoord { row: 0, card: 0 }).0 == user_coord_at(s@, reached(i)).0,
{
    match unsigned(s, letter(s, i, 'r'), 255) {
        Some((row, j)) => match unsigned(s, letter(s, Some(j), 'c'), 255) {
            Some((card, k)) => Some((UserCoord::new(row, card), k)),
            None => None,
        },
        None => None,
    }
}

/// The position after the comma at `i` and the spaces and tabs behind it.
fn comma(s: &str, i: Option<usize>) -> (r: Option<usize>)
    ensures
        reached(r) == after_comma(s@, reached(i)),
{
    gap(s, character(s, i, ','), 0)
}

/// The hex coordinate at `i` and the position after it.
pub fn coord(s: &str, i: Option<usize>) -> (r: Option<(Coord, usize)>)
    ensures
        read(r, Coord { x: 0, y: 0, z: 0 }) == coord_at(s@, reached(i)),
{
    match signed(s, character(s, i, '<')) {
        Some((x, j)) => match signed(s, comma(s, Some(j))) {
            Some((y, k)) => match signed(s, comma(s, Some(k))) {
                Some((_, l)) => match character(s, Some(l), '>') {
                    Some(end) => {
                        let z: i16 = -(x as i16) - (y as i16);
                        if -128 <= z && z <= 127 {
                            Some((Coord::new_hex(x, y), end))
                        } else {
                            None
                        }
                    },
                    None => None,
                },
                None => None,
            },
            None => None,
        },
        None => None,
    }
}

/// The position after the word `w` and the gap behind it, if both stand at `i`.
fn keyword(s: &str, i: Option<usize>, w: &str) -> (r: Option<usize>)
    ensures
        reached(r) == after_gap(s@, after_word(s@, reached(i), w@)),
{
    gap(s, word(s, i, w), 1)
}

fn place_cmd(s: &str) -> (r: Option<(GameMove<UserCoord>, usize)>)
    ensures
        read(r, GameMove::Submit).1 == place_at(s@).1,
        r is Some ==> read(r, GameMove::Submit).0 == place_at(s@).0,
{
    match die(s, keyword(s, Some(0), "place")) {
        Some((d, i)) => match user_coord(s, keyword(s, gap(s, Some(i), 1), "at")) {
            Some((c, end)) => Some((GameMove::Place(d, c), end)),
            None => None,
        },
        None => None,
    }
}

fn move_cmd(s: &str) -> (r: Option<(GameMove<UserCoord>, usize)>)
    ensures
        read(r, GameMove::Submit).1 == move_at(s@).1,
        r is Some ==> read(r, GameMove::Submit).0 == move_at(s@).0,
{
    match die(s, keyword(s, Some(0), "move")) {
        Some((d, i)) => match user_coord(s, keyword(s, gap(s, Some(i), 1), "from")) {
            Some((from, j)) => match user_coord(s, keyword(s, gap(s, Some(j), 1), "to")) {
                Some((to, end)) => Some((GameMove::Move(d, from, to), end)),
                None => None,
            },
            None => None,
        },
        None => None,
    }
}

fn fight_cmd(s: &str) -> (r: Option<(GameMove<UserCoord>, usize)>)
    ensures
        read(r, GameMove::Submit).1 == fight_at(s@).1,
        r is Some ==> read(r, GameMove::Submit).0 == fight_at(s@).0,
{
    match user_coord(s, keyword(s, keyword(s, Some(0), "fight"), "at")) {
        Some((c, end)) => Some((GameMove::Fight(c), end)),
        None => None,
    }
}

fn surprise_cmd(s: &str) -> (r: Option<(GameMove<UserCoord>, usize)>)
    ensures
        read(r, GameMove::Submit).1 == surprise_at(s@).1,
        r is Some ==> read(r, GameMove::Submit).0 == surprise_at(s@).0,
{
    match user_coord(s, keyword(s, keyword(s, Some(0), "surprise"), "from")) {
        Some((from, i)) => match coord(s, keyword(s, gap(s, Some(i), 1), "to")) {
            Some((to, end)) => Some((GameMove::Surprise(from, to), end)),
            None => None,
        },
        None => None,
    }
}

/// The move at the start of the text and the position after it.
pub fn game_move(s: &str) -> (r: Option<(GameMove<UserCoord>, usize)>)
    ensures
        read(r, GameMove::Submit).1 == move_at_start(s@).1,
        r is Some ==> read(r, GameMove::Submit).0 == move_at_start(s@).0,
{
    match place_cmd(s) {
        Some(r) => {
            return Some(r);
        },
        None => {},
    }
    match move_cmd(s) {
        Some(r) => {
            return Some(r);
        },
        None => {},
    }
    match fight_cmd(s) {
        Some(r) => {
            return Some(r);
        },
        None => {},
    }
    match surprise_cmd(s) {
        Some(r) => {
            return Some(r);
        },
        None => {},
    }
    match word(s, Some(0), "submit") {
        Some(end) => Some((GameMove::Submit, end)),
        None => None,
    }
}

/// Reads a move. The whole text has to be the move.
pub fn parse_move(s: &str) -> (r: Result<GameMove<UserCoord>, BadMove>)
    ensures
        r == match move_of(s@) {
            Some(m) => Ok::<GameMove<UserCoord>, BadMove>(m),
            None => Err(BadMove),
        },
{
    match game_move(s) {
        Some((m, end)) => {
            if end == s.unicode_len() {
                Ok(m)
            } else {
                Err(BadMove)
            }
        },
        None => Err(BadMove),
    }
}

impl std::str::FromStr for GameMove<UserCoord> {
    type Err = BadMove;

    /// Reads a move, as `parse_move` does.
    fn from_str(s: &str) -> (r: Result<GameMove<UserCoord>, BadMove>)
        ensures
            r == match move_of(s@) {
                Some(m) => Ok::<GameMove<UserCoord>, BadMove>(m),
                None => Err(BadMove),
            },
    {
        parse_move(s)
    }
}

} // verus!
