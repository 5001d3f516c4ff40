//! The level loader: from a textual layout to a board.

use vstd::prelude::*;
use crate::board::{Board, Grid};
use crate::square::Square;
use crate::topology::Point;

verus! {

/// The byte that ends a row, a line feed.
pub const NEWLINE: u8 = 10;

/// The byte of an empty cell, a dot.
pub const DOT: u8 = 46;

/// The byte of the first flow's endpoints, the letter `A`.
pub const FIRST_LETTER: u8 = 65;

/// The byte of the last flow's endpoints, the letter `Z`.
pub const LAST_LETTER: u8 = 90;

/// The error of the loader: the text holds a byte that no level may hold.
#[derive(PartialEq, Eq, Structural, Copy, Clone, Debug)]
pub struct MalformedLevel;

/// The cell that the byte `b` stands for, if it stands for one: a dot for an
/// empty cell, an upper-case letter for an unlinked endpoint of the flow
/// numbered from `A`.
pub open spec fn square_of(b: u8) -> Option<Square> {
    if b == DOT {
        Some(Square::Empty)
    } else if FIRST_LETTER <= b <= LAST_LETTER {
        Some(Square::Entry { flow: (b - FIRST_LETTER) as u32, dir: None })
    } else {
        None
    }
}

/// Whether a level text may hold the byte `b`.
pub open spec fn is_level_byte(b: u8) -> bool {
    square_of(b) is Some || b == NEWLINE
}

/// `square_of` as a function value.
pub open spec fn cell_parser() -> spec_fn(u8) -> Option<Square> {
    |b: u8| square_of(b)
}

/// The test for `NEWLINE` as a function value.
pub open spec fn newline_test() -> spec_fn(u8) -> bool {
    |b: u8| b == NEWLINE
}

/// The cells that `text` describes, in the order of the text.
pub open spec fn cells_of(text: Seq<u8>) -> Seq<Square> {
    text.filter_map(cell_parser())
}

/// Number of line breaks in `text`.
pub open spec fn newline_count(text: Seq<u8>) -> nat {
    text.filter(newline_test()).len()
}

/// `k` is where the first row of `text` ends: the index of the first line
/// break, or the length of a text without one.
pub open spec fn is_row_end(text: Seq<u8>, k: int) -> bool {
    &&& 0 <= k <= text.len()
    &&& forall|i: int| 0 <= i < k ==> text[i] != NEWLINE
    &&& k < text.len() ==> text[k] == NEWLINE
}

/// Where the first row of `text` ends.
pub open spec fn row_end(text: Seq<u8>) -> int {
    choose|k: int| is_row_end(text, k)
}

/// Width of the level that `text` describes: the number of cells in its first
/// row.
pub open spec fn level_width(text: Seq<u8>) -> int {
    cells_of(text.take(row_end(text))).len() as int
}

/// Height of the level that `text` describes: one row more than it has line
/// breaks, where a line break at the very end counts for none.
pub open spec fn level_height(text: Seq<u8>) -> int {
    if text.len() > 0 && text.last() == NEWLINE {
        newline_count(text) as int
    } else {
        newline_count(text) as int + 1
    }
}

/// The grid that `text` describes.
pub open spec fn level_of(text: Seq<u8>) -> Grid {
    Grid {
        width: level_width(text),
        height: level_height(text),
        cells: cells_of(text),
        cursor: Point { x: 0, y: 0 },
        active: None,
    }
}

/// There is one place only where the first row of a text ends.
pub proof fn lemma_row_end(text: Seq<u8>, k: int)
    requires
        is_row_end(text, k),
    ensures
        row_end(text) == k,
{
    let c = row_end(text);
    assert(is_row_end(text, c));
    if c < k {
        assert(text[c] == NEWLINE);
    } else if k < c {
        assert(text[k] == NEWLINE);
    }
}

impl Board {
    /// Reads a level: rows of dots and upper-case letters, each row ended by
    /// a line feed. A text with any other byte, a carriage return among them,
    /// is refused. Neither the length of the rows after the first nor the
    /// number of endpoints of a flow is looked at.
    pub fn from_text(text: &[u8]) -> (r: Result<Board, MalformedLevel>)
        ensures
            match r {
                Ok(b) => {
                    &&& forall|i: int| 0 <= i < text@.len() ==> is_level_byte(#[trigger] text@[i])
                    &&& b@ == level_of(text@)
                },
                Err(_) => exists|i: int|
                    0 <= i < text@.len() && !is_level_byte(#[trigger] text@[i]),
            },
    {
        let mut width: usize = 0;
        let mut newlines: usize = 0;
        let mut first_row = true;
        let mut cells: Vec<Square> = Vec::new();
        let ghost mut end: int = 0;
        let mut i: usize = 0;
        while i < text.len()
            invariant
                0 <= i <= text@.len(),
                forall|j: int| 0 <= j < i ==> is_level_byte(#[trigger] text@[j]),
                cells@ == cells_of(text@.take(i as int)),
                newlines == newline_count(text@.take(i as int)),
                newlines <= i,
                cells@.len() <= i,
                first_row ==> end == i,
                !first_row ==> end < i && text@[end] == NEWLINE,
                0 <= end <= i,
                forall|j: int| 0 <= j < end ==> text@[j] != NEWLINE,
                width == cells_of(text@.take(end)).len(),
            decreases text@.len() - i,
        {
            let c = text[i];
            proof {
                text@.lemma_filter_map_take_succ(cell_parser(), i as int);
                text@.lemma_take_succ_push(i as int);
                text@.take(i as int).lemma_filter_len_push(newline_test(), text@[i as int]);
            }
            if c == DOT {
                cells.push(Square::Empty);
                if first_row {
                    width += 1;
                }
            } else if c == NEWLINE {
                newlines += 1;
                first_row = false;
            } else if c >= FIRST_LETTER && c <= LAST_LETTER {
                cells.push(Square::Entry { flow: (c - FIRST_LETTER) as u32, dir: None });
                if first_row {
                    width += 1;
                }
            } else {
                return Err(MalformedLevel);
            }
            proof {
                if first_row {
                    end = i + 1;
                }
            }
            i += 1;
        }
        proof {
            assert(text@.take(i as int) == text@);
            assert(is_row_end(text@, end));
            lemma_row_end(text@, end);
        }
        let height = if text.len() > 0 && text[text.len() - 1] == NEWLINE {
            newlines
        } else {
            proof {
                if text@.len() > 0 {
                    let n = text@.len() - 1;
                    text@.lemma_take_succ_push(n);
                    assert(text@.take(n + 1) == text@);
                    text@.take(n).lemma_filter_len_push(newline_test(), text@[n]);
                    text@.take(n).lemma_filter_len(newline_test());
                } else {
                    text@.lemma_filter_len(newline_test());
                }
            }
            newlines + 1
        };
        Ok(Board::new(width, height, cells))
    }
}

} // verus!
