//! What a person at the console asks for.

use crate::coord::{is_space, is_whitespace};
use crate::parsers::{natural, unsigned_at};
use vstd::prelude::*;
use vstd::string::*;

verus! {

/// The seconds that a hint takes where none are given.
pub const HINT_SECONDS: u64 = 10;

/// The depth of a hint, in plies, where none is given.
pub const HINT_DEPTH: u32 = 5;

/// What a line that was typed at the console asks for.
#[derive(PartialEq, Eq, Structural, Debug, Copy, Clone)]
pub enum Command {
    /// A hint from a search of so many seconds.
    Duration(u64),
    /// A hint from a search down to so many plies.
    Depth(u32),
    /// A hint from a search that follows every line of play to its end.
    Completion,
    /// The position is to be shown.
    Position,
    /// The moves made so far are to be shown.
    Moves,
    /// The commands are to be explained.
    Help,
    /// A hint is asked for with what is no number, or too great a one.
    BadNumber,
    /// Anything else is taken for a move.
    Move,
}

/// Whether the text starts with the characters of `w`.
pub open spec fn starts(s: Seq<char>, w: Seq<char>) -> bool {
    w.len() <= s.len() && forall|k: int| 0 <= k < w.len() ==> s[k] == #[trigger] w[k]
}

/// The number of characters from `i` on that are white space, or that are
/// none.
pub open spec fn run(s: Seq<char>, i: int, space: bool) -> nat
    decreases s.len() - i,
{
    if 0 <= i < s.len() && is_space(s[i]) == space {
        1 + run(s, i + 1, space)
    } else {
        0
    }
}

/// Where the second word of the text starts, if there is one: words are
/// what white space keeps apart.
pub open spec fn second_word(s: Seq<char>) -> Option<int> {
    let first = run(s, 0, true);
    let end = first + run(s, first as int, false);
    let start = end + run(s, end as int, true);
    if start < s.len() {
        Some(start as int)
    } else {
        None
    }
}

/// The number that the word at `start` stands for, if it is one of at most
/// `max`: digits, with or without a plus sign before them.
pub open spec fn number_of(s: Seq<char>, start: int, max: int) -> Option<int> {
    let digits = if s[start] == '+' {
        start + 1
    } else {
        start
    };
    let number = unsigned_at(s, digits, max);
    if number.1 == start + run(s, start, false) {
        Some(number.0)
    } else {
        None
    }
}

/// The number that a hint is asked for with: that of the second word, or
/// `default` where there is no second word.
pub open spec fn argument_of(s: Seq<char>, default: int, max: int) -> Option<int> {
    match second_word(s) {
        Some(start) => number_of(s, start, max),
        None => Some(default),
    }
}

/// What a line asks for. It is told by how the line starts; a hint by
/// duration or by depth takes its number from the second word.
pub open spec fn command_of(s: Seq<char>) -> Command {
    if starts(s, "hint"@) || starts(s, "dur"@) {
        match argument_of(s, HINT_SECONDS as int, u64::MAX as int) {
            Some(seconds) => Command::Duration(seconds as u64),
            None => Command::BadNumber,
        }
    } else if starts(s, "dep"@) {
        match argument_of(s, HINT_DEPTH as int, u32::MAX as int) {
            Some(depth) => Command::Depth(depth as u32),
            None => Command::BadNumber,
        }
    } else if starts(s, "comp"@) {
        Command::Completion
    } else if starts(s, "pos"@) {
        Command::Position
    } else if starts(s, "moves"@) {
        Command::Moves
    } else if starts(s, "help"@) || starts(s, "?"@) {
        Command::Help
    } else {
        Command::Move
    }
}

/// Whether the text starts with the characters of `w`.
#[verifier::loop_isolation(false)]
pub fn starts_with(s: &str, w: &str) -> (b: bool)
    ensures
        b == starts(s@, w@),
{
    let n = w.unicode_len();
    if n > s.unicode_len() {
        return false;
    }
    let mut k: usize = 0;
    while k < n
        invariant
            k <= n,
            forall|j: int| 0 <= j < k ==> s@[j] == #[trigger] w@[j],
        decreases n - k,
    {
        if s.get_char(k) != w.get_char(k) {
            assert(s@[k as int] != w@[k as int]);
            return false;
        }
        k += 1;
    }
    true
}

/// The position after the characters from `i` on that are white space, or
/// that are none.
fn skip(s: &str, i: usize, space: bool) -> (j: usize)
    requires
        i <= s@.len(),
    ensures
        j == i + run(s@, i as int, space),
        j <= s@.len(),
{
    let n = s.unicode_len();
    let mut j: usize = i;
    while j < n && is_whitespace(s.get_char(j)) == space
        invariant
            n == s@.len(),
            i <= j <= n,
            run(s@, i as int, space) == (j - i) + run(s@, j as int, space),
        decreases n - j,
    {
        j += 1;
    }
    j
}

/// The number that a hint is asked for with, if it is one of at most `max`.
fn argument(s: &str, default: u64, max: u64) -> (r: Option<u64>)
    requires
        default <= max,
    ensures
        match argument_of(s@, default as int, max as int) {
            Some(n) => 0 <= n <= max && r == Some(n as u64),
            None => r is None,
        },
{
    let first = skip(s, 0, true);
    let end = skip(s, first, false);
    let start = skip(s, end, true);
    if start >= s.unicode_len() {
        return Some(default);
    }
    let digits = if s.get_char(start) == '+' {
        start + 1
    } else {
        start
    };
    let word_end = skip(s, start, false);
    match natural(s, Some(digits), max) {
        Some((number, after)) => {
            if after == word_end {
                Some(number)
            } else {
                None
            }
        },
        None => None,
    }
}

/// What a line that was typed at the console asks for.
pub fn command(s: &str) -> (c: Command)
    ensures
        c == command_of(s@),
{
    if starts_with(s, "hint") || starts_with(s, "dur") {
        match argument(s, HINT_SECONDS, u64::MAX) {
            Some(seconds) => Command::Duration(seconds),
            None => Command::BadNumber,
        }
    } else if starts_with(s, "dep") {
        match argument(s, HINT_DEPTH as u64, u32::MAX as u64) {
            Some(depth) => Command::Depth(depth as u32),
            None => Command::BadNumber,
        }
    } else if starts_with(s, "comp") {
        Command::Completion
    } else if starts_with(s, "pos") {
        Command::Position
    } else if starts_with(s, "moves") {
        Command::Moves
    } else if starts_with(s, "help") || starts_with(s, "?") {
        Command::Help
    } else {
        Command::Move
    }
}

} // verus!
