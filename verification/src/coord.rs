//! Positions on the grid, and the coordinates that people type.

use vstd::prelude::*;
use vstd::string::*;

verus! {

/// A cell position, shared by hex and square grids.
///
/// On a hex grid the three numbers are cube coordinates, so `x + y + z == 0`
/// and two cells on a common line agree in one of them. On a square grid `z`
/// is always zero.
#[derive(PartialEq, Eq, Structural, PartialOrd, Ord, Hash, Debug, Copy, Clone)]
pub struct Coord {
    pub x: i8,
    pub y: i8,
    pub z: i8,
}

impl Coord {
    /// The position of this coordinate in the order by `x`, then `y`, then `z`.
    pub open spec fn key(self) -> int {
        (self.x + 128) * 65536 + (self.y + 128) * 256 + (self.z + 128)
    }

    /// Hex coordinate with the given `x` and `y`; `z` is what makes the sum zero.
    pub fn new_hex(x: i8, y: i8) -> (c: Coord)
        requires
            -128 <= -(x as int) - (y as int) <= 127,
        ensures
            c.x == x,
            c.y == y,
            c.z == -(x as int) - (y as int),
    {
        let z: i16 = -(x as i16) - (y as i16);
        Coord { x, y, z: z as i8 }
    }

    /// Square coordinate with the given `x` and `y`.
    pub fn new_square(x: i8, y: i8) -> (c: Coord)
        ensures
            c == (Coord { x, y, z: 0 }),
    {
        Coord { x, y, z: 0 }
    }

    /// The order key as a machine integer.
    pub fn order_key(&self) -> (k: u32)
        ensures
            k == self.key(),
    {
        let x: u32 = (self.x as i32 + 128) as u32;
        let y: u32 = (self.y as i32 + 128) as u32;
        let z: u32 = (self.z as i32 + 128) as u32;
        x * 65536 + y * 256 + z
    }
}

/// Coordinates with the same key are the same coordinate.
pub proof fn lemma_key_injective(a: Coord, b: Coord)
    requires
        a.key() == b.key(),
    ensures
        a == b,
{
}

/// More user-friendly coordinates, easier to understand and type. Row is
/// counted from 1 and starts from the top. Card is counted from 1 and starts
/// from the left.
#[derive(PartialEq, Eq, Structural, PartialOrd, Ord, Debug, Clone, Copy, Hash)]
pub struct UserCoord {
    pub row: u8,
    pub card: u8,
}

impl UserCoord {
    /// The coordinate of the given card in the given row, both counted from 1.
    pub fn new(row: u8, card: u8) -> (c: UserCoord)
        ensures
            c == (UserCoord { row, card }),
    {
        UserCoord { row, card }
    }
}

/// A text that is no user coordinate.
#[derive(PartialEq, Eq, Structural, Debug, Copy, Clone)]
pub struct BadUserCoord;

/// Whether a character is white space, by its code.
pub open spec fn is_space(c: char) -> bool {
    let u = c as u32;
    (0x09 <= u <= 0x0d) || u == 0x20 || u == 0x85 || u == 0xa0 || u == 0x1680 || (0x2000 <= u
        <= 0x200a) || u == 0x2028 || u == 0x2029 || u == 0x202f || u == 0x205f || u == 0x3000
}

/// The number that a decimal digit stands for.
pub open spec fn digit(c: char) -> Option<u8> {
    if '0' <= c <= '9' {
        Some((c as u32 - '0' as u32) as u8)
    } else {
        None
    }
}

/// Whether the text is white space up to `start`, then the user coordinate
/// in four characters, then white space.
pub open spec fn reads_as(s: Seq<char>, start: int, uc: UserCoord) -> bool {
    &&& 0 <= start
    &&& start + 4 <= s.len()
    &&& forall|i: int| 0 <= i < start ==> is_space(#[trigger] s[i])
    &&& forall|i: int| start + 4 <= i < s.len() ==> is_space(#[trigger] s[i])
    &&& (s[start] == 'r' || s[start] == 'R')
    &&& digit(s[start + 1]) == Some(uc.row)
    &&& (s[start + 2] == 'c' || s[start + 2] == 'C')
    &&& digit(s[start + 3]) == Some(uc.card)
}

/// Whether the text is the user coordinate in four characters like `R1C2`,
/// in upper or lower case, with nothing but white space before and after.
pub open spec fn reads(s: Seq<char>, uc: UserCoord) -> bool {
    exists|start: int| reads_as(s, start, uc)
}

/// Whether a character is white space.
pub fn is_whitespace(c: char) -> (b: bool)
    ensures
        b == is_space(c),
{
    let u = c as u32;
    (0x09 <= u && u <= 0x0d) || u == 0x20 || u == 0x85 || u == 0xa0 || u == 0x1680 || (0x2000 <= u
        && u <= 0x200a) || u == 0x2028 || u == 0x2029 || u == 0x202f || u == 0x205f || u == 0x3000
}

/// The number that a decimal digit stands for.
pub fn digit_value(c: char) -> (d: Option<u8>)
    ensures
        d == digit(c),
{
    if '0' <= c && c <= '9' {
        Some((c as u32 - '0' as u32) as u8)
    } else {
        None
    }
}

impl UserCoord {
    /// Reads a user coordinate: four characters like `R1C2`, in upper or
    /// lower case, with white space before and after left out.
    #[verifier::loop_isolation(false)]
    pub fn parse(s: &str) -> (r: Result<UserCoord, BadUserCoord>)
        ensures
            match r {
                Ok(uc) => reads(s@, uc),
                Err(_) => forall|uc: UserCoord| !reads(s@, uc),
            },
    {
        let n = s.unicode_len();
        let mut start: usize = 0;
        while start < n && is_whitespace(s.get_char(start))
            invariant
                n == s@.len(),
                start <= n,
                forall|i: int| 0 <= i < start ==> is_space(#[trigger] s@[i]),
            decreases n - start,
        {
            start += 1;
        }
        proof {
            // No reading starts anywhere else: before `start` there is only
            // white space, and the character at `start` is none.
            assert forall|other: int, uc: UserCoord| other != start implies !reads_as(
                s@,
                other,
                uc,
            ) by {
                if reads_as(s@, other, uc) {
                    if other < start {
                        assert(is_space(s@[other]));
                    } else {
                        assert(is_space(s@[start as int]));
                    }
                }
            }
        }
        if n - start < 4 {
            return Err(BadUserCoord);
        }
        let r = s.get_char(start);
        let row = digit_value(s.get_char(start + 1));
        let c = s.get_char(start + 2);
        let card = digit_value(s.get_char(start + 3));
        let mut end: usize = start + 4;
        while end < n && is_whitespace(s.get_char(end))
            invariant
                n == s@.len(),
                start + 4 <= end <= n,
                forall|i: int| start + 4 <= i < end ==> is_space(#[trigger] s@[i]),
            decreases n - end,
        {
            end += 1;
        }
        if end < n || !(r == 'r' || r == 'R') || !(c == 'c' || c == 'C') {
            return Err(BadUserCoord);
        }
        match (row, card) {
            (Some(row), Some(card)) => {
                let uc = UserCoord { row, card };
                assert(reads_as(s@, start as int, uc));
                Ok(uc)
            },
            _ => {
                assert forall|uc: UserCoord| !reads_as(s@, start as int, uc) by {
                    assert(digit(s@[start + 1]) == row);
                    assert(digit(s@[start + 3]) == card);
                }
                Err(BadUserCoord)
            },
        }
    }
}

impl std::str::FromStr for UserCoord {
    type Err = BadUserCoord;

    /// Reads a user coordinate, as `UserCoord::parse` does.
    fn from_str(s: &str) -> (r: Result<UserCoord, BadUserCoord>)
        ensures
            match r {
                Ok(uc) => reads(s@, uc),
                Err(_) => forall|uc: UserCoord| !reads(s@, uc),
            },
    {
        UserCoord::parse(s)
    }
}

} // verus!
