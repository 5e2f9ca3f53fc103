use vstd::prelude::*;
use vstd::utf8::encode_utf8;

verus! {

/// A place in the input text: byte offset, line and column (both starting at one).
#[derive(Debug, Clone, Copy, PartialEq, Eq, Structural)]
pub struct Position {
    pub index: usize,
    pub line: usize,
    pub col: usize,
}

/// Line and column reached after reading the first `k` characters of `s`.
pub open spec fn line_col(s: Seq<char>, k: int) -> (int, int)
    decreases k,
{
    if k <= 0 {
        (1, 1)
    } else {
        let (line, col) = line_col(s, k - 1);
        if s[k - 1] == '\n' {
            (line + 1, 1)
        } else {
            (line, col + 1)
        }
    }
}

/// Number of bytes that the first `k` characters of `s` take in UTF-8.
pub open spec fn byte_offset(s: Seq<char>, k: int) -> int {
    encode_utf8(s.take(k)).len() as int
}

/// The position reached after reading the first `k` characters of `s`.
pub open spec fn position_at(s: Seq<char>, k: int) -> Position {
    Position {
        index: byte_offset(s, k) as usize,
        line: line_col(s, k).0 as usize,
        col: line_col(s, k).1 as usize,
    }
}

pub proof fn lemma_line_col_bounds(s: Seq<char>, k: int)
    requires
        0 <= k,
    ensures
        1 <= line_col(s, k).0 <= k + 1,
        1 <= line_col(s, k).1 <= k + 1,
    decreases k,
{
    if k > 0 {
        lemma_line_col_bounds(s, k - 1);
    }
}

impl Position {
    pub fn new(index: usize, line: usize, col: usize) -> (r: Position)
        ensures
            r == (Position { index, line, col }),
    {
        Position { index, line, col }
    }

    /// The start of a text: byte zero, line one, column one.
    pub fn start() -> (r: Position)
        ensures
            r == (Position { index: 0, line: 1, col: 1 }),
    {
        Position { index: 0, line: 1, col: 1 }
    }
}

impl Default for Position {
    fn default() -> (r: Position)
        ensures
            r == (Position { index: 0, line: 1, col: 1 }),
    {
        Position::start()
    }
}

} // verus!
