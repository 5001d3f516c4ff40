//! The picture of a board: a framed grid of box-drawing glyphs, as UTF-8
//! text with colour escapes for a terminal.

use vstd::prelude::*;
use crate::board::{Board, Grid};
use crate::square::Square;
use crate::topology::{Coord, Direction, Point};

verus! {

/// Last byte of the glyph `─`.
pub const HORIZONTAL: u8 = 0x80;

/// Last byte of the glyph `│`.
pub const VERTICAL: u8 = 0x82;

/// Last byte of the glyph `┌`.
pub const DOWN_RIGHT: u8 = 0x8c;

/// Last byte of the glyph `┐`.
pub const DOWN_LEFT: u8 = 0x90;

/// Last byte of the glyph `└`.
pub const UP_RIGHT: u8 = 0x94;

/// Last byte of the glyph `┘`.
pub const UP_LEFT: u8 = 0x98;

/// Colour digit of the active flow, blue.
pub const BLUE: u8 = 0x34;

/// Colour digit of everything else, white.
pub const WHITE: u8 = 0x37;

/// The byte of a space.
pub const SPACE: u8 = 0x20;

/// The byte that opens the highlight, `[`.
pub const OPEN: u8 = 0x5b;

/// The byte that closes the highlight, `]`.
pub const CLOSE: u8 = 0x5d;

/// The byte shown for no active flow, `-`.
pub const DASH: u8 = 0x2d;

/// Number of flows that have a letter.
pub const LETTERS: u32 = 26;

/// The UTF-8 text of the box-drawing glyph whose last byte is `low`.
pub open spec fn glyph(low: u8) -> Seq<u8> {
    seq![0xe2u8, 0x94u8, low]
}

/// The UTF-8 text of the half-line glyph that points in direction `d`.
pub open spec fn stub(d: Direction) -> Seq<u8> {
    seq![
        0xe2u8,
        0x95u8,
        match d {
            Direction::North => 0xb5u8,
            Direction::East => 0xb6u8,
            Direction::South => 0xb7u8,
            Direction::West => 0xb4u8,
        },
    ]
}

/// The escape sequence that sets the colour with digit `digit`.
pub open spec fn colour(digit: u8) -> Seq<u8> {
    seq![0x1bu8, 0x5bu8, 0x30u8, 0x3bu8, 0x33u8, digit, 0x6du8]
}

/// Last byte of the glyph that joins the directions `a` and `b`.
pub open spec fn joint(a: Direction, b: Direction) -> u8 {
    match (a, b) {
        (Direction::North, Direction::East) | (Direction::East, Direction::North) => UP_RIGHT,
        (Direction::North, Direction::West) | (Direction::West, Direction::North) => UP_LEFT,
        (Direction::East, Direction::South) | (Direction::South, Direction::East) => DOWN_RIGHT,
        (Direction::South, Direction::West) | (Direction::West, Direction::South) => DOWN_LEFT,
        (Direction::East, Direction::West) | (Direction::West, Direction::East) => HORIZONTAL,
        _ => VERTICAL,
    }
}

/// The letter of `flow`.
pub open spec fn letter(flow: u32) -> u8 {
    (65 + flow) as u8
}

/// The text of a cell: a space for an empty cell, the flow's letter for an
/// endpoint, the joint of its two directions for a line, and a half line for
/// the open end of a path.
pub open spec fn square_text(s: Square) -> Seq<u8> {
    match s {
        Square::Empty => seq![SPACE],
        Square::Entry { flow, .. } => seq![letter(flow)],
        Square::Line { from, to: Some(to), .. } => glyph(joint(to, from)),
        Square::Line { from, to: None, .. } => stub(from),
    }
}

/// The cell has a link to the east, coming or going.
pub open spec fn links_east(s: Square) -> bool {
    match s {
        Square::Empty => false,
        Square::Line { from, to, .. } => to == Some(Direction::East) || from == Direction::East,
        Square::Entry { dir, .. } => dir == Some(Direction::East),
    }
}

/// The cell can be shown: its flow has a letter, and a line does not go back
/// where it came from.
pub open spec fn showable(s: Square) -> bool {
    match s {
        Square::Empty => true,
        Square::Line { flow, from, to } => flow < LETTERS && to != Some(from),
        Square::Entry { flow, .. } => flow < LETTERS,
    }
}

impl Grid {
    /// Every cell and the active flow can be shown.
    pub open spec fn showable(self) -> bool {
        &&& self.wf()
        &&& self.active matches Some(flow) ==> flow < LETTERS
        &&& forall|i: int| 0 <= i < self.cells.len() ==> showable(#[trigger] self.cells[i])
    }

    /// What stands between the cell at `p` and the one to its left: the
    /// highlight's brackets round the cursor, else the link between the two
    /// cells, in the active flow's colour where it is of that flow, else a
    /// space.
    pub open spec fn gap_text(self, p: Point) -> Seq<u8> {
        let left = Point { x: p.x - 1, y: p.y };
        if self.cursor == p {
            seq![OPEN]
        } else if p.x > 0 && self.cursor == left {
            seq![CLOSE]
        } else if p.x > 0 && links_east(self.at(left)) {
            if self.active == self.at(left).flow() {
                colour(BLUE) + glyph(HORIZONTAL)
            } else {
                glyph(HORIZONTAL)
            }
        } else {
            seq![SPACE]
        }
    }

    /// The text of the cell at `p` with what stands to its left: the gap,
    /// the cell in the active flow's colour where it is of that flow, and a
    /// return to the plain colour.
    pub open spec fn cell_text(self, p: Point) -> Seq<u8> {
        self.gap_text(p) + (if self.active is Some && self.active == self.at(p).flow() {
            colour(BLUE)
        } else {
            Seq::empty()
        }) + square_text(self.at(p)) + colour(WHITE)
    }

    /// The text of the first `n` cells of row `y`.
    pub open spec fn cells_text(self, y: int, n: nat) -> Seq<u8>
        decreases n,
    {
        if n == 0 {
            Seq::empty()
        } else {
            self.cells_text(y, (n - 1) as nat) + self.cell_text(Point { x: n - 1, y })
        }
    }

    /// The text of row `y`: its cells between two bars, a closing bracket
    /// behind the last cell where the cursor is on it, and a line feed.
    pub open spec fn row_text(self, y: int) -> Seq<u8> {
        glyph(VERTICAL) + self.cells_text(y, self.width as nat) + seq![
            if self.cursor == (Point { x: self.width - 1, y }) {
                CLOSE
            } else {
                SPACE
            },
        ] + glyph(VERTICAL) + seq![0x0au8]
    }

    /// The text of the first `n` rows.
    pub open spec fn rows_text(self, n: nat) -> Seq<u8>
        decreases n,
    {
        if n == 0 {
            Seq::empty()
        } else {
            self.rows_text((n - 1) as nat) + self.row_text(n - 1)
        }
    }

    /// The picture of the grid: a frame round the rows, with the letter of
    /// the active flow, or a dash, behind the top right corner.
    pub open spec fn picture(self) -> Seq<u8> {
        glyph(DOWN_RIGHT) + rule(2 * self.width as nat + 1) + glyph(DOWN_LEFT) + seq![
            match self.active {
                Some(flow) => letter(flow),
                None => DASH,
            },
            0x0au8,
        ] + self.rows_text(self.height as nat) + glyph(UP_RIGHT) + rule(
            2 * self.width as nat + 1,
        ) + glyph(UP_LEFT) + seq![0x0au8]
    }
}

/// A horizontal rule of `n` glyphs.
pub open spec fn rule(n: nat) -> Seq<u8>
    decreases n,
{
    if n == 0 {
        Seq::empty()
    } else {
        rule((n - 1) as nat) + glyph(HORIZONTAL)
    }
}

/// Appends a box-drawing glyph.
fn push_glyph(out: &mut Vec<u8>, low: u8)
    ensures
        final(out)@ == old(out)@ + glyph(low),
{
    out.push(0xe2);
    out.push(0x94);
    out.push(low);
    assert(out@ =~= old(out)@ + glyph(low));
}

/// Appends a colour escape.
fn push_colour(out: &mut Vec<u8>, digit: u8)
    ensures
        final(out)@ == old(out)@ + colour(digit),
{
    out.push(0x1b);
    out.push(0x5b);
    out.push(0x30);
    out.push(0x3b);
    out.push(0x33);
    out.push(digit);
    out.push(0x6d);
    assert(out@ =~= old(out)@ + colour(digit));
}

/// Appends one byte.
fn push_byte(out: &mut Vec<u8>, byte: u8)
    ensures
        final(out)@ == old(out)@ + seq![byte],
{
    out.push(byte);
    assert(out@ =~= old(out)@ + seq![byte]);
}

/// Appends a horizontal rule of `n` glyphs.
fn push_rule(out: &mut Vec<u8>, n: usize)
    ensures
        final(out)@ == old(out)@ + rule(n as nat),
{
    let mut i: usize = 0;
    assert(out@ =~= old(out)@ + rule(0));
    while i < n
        invariant
            i <= n,
            out@ == old(out)@ + rule(i as nat),
        decreases n - i,
    {
        push_glyph(out, HORIZONTAL);
        i += 1;
        assert(out@ =~= old(out)@ + rule(i as nat));
    }
}

/// Appends the text of a cell.
fn push_square(out: &mut Vec<u8>, s: Square)
    requires
        showable(s),
    ensures
        final(out)@ == old(out)@ + square_text(s),
{
    match s {
        Square::Empty => push_byte(out, SPACE),
        Square::Entry { flow, .. } => push_byte(out, 65 + flow as u8),
        Square::Line { from, to: None, .. } => {
            out.push(0xe2);
            out.push(0x95);
            out.push(
                match from {
                    Direction::North => 0xb5,
                    Direction::East => 0xb6,
                    Direction::South => 0xb7,
                    Direction::West => 0xb4,
                },
            );
            assert(out@ =~= old(out)@ + stub(from));
        },
        Square::Line { from, to: Some(to), .. } => push_glyph(out, joint_of(to, from)),
    }
}

/// Last byte of the glyph that joins the directions `a` and `b`.
fn joint_of(a: Direction, b: Direction) -> (low: u8)
    ensures
        low == joint(a, b),
{
    match (a, b) {
        (Direction::North, Direction::East) | (Direction::East, Direction::North) => UP_RIGHT,
        (Direction::North, Direction::West) | (Direction::West, Direction::North) => UP_LEFT,
        (Direction::East, Direction::South) | (Direction::South, Direction::East) => DOWN_RIGHT,
        (Direction::South, Direction::West) | (Direction::West, Direction::South) => DOWN_LEFT,
        (Direction::East, Direction::West) | (Direction::West, Direction::East) => HORIZONTAL,
        _ => VERTICAL,
    }
}

impl Board {
    /// Whether every cell and the active flow can be shown.
    pub fn is_showable(&self) -> (b: bool)
        ensures
            b == self@.showable(),
    {
        if !self.is_rectangular() {
            return false;
        }
        match self.selected_flow() {
            Some(flow) => {
                if flow >= LETTERS {
                    return false;
                }
            },
            None => {},
        }
        let n = self.cell_count();
        let mut i: usize = 0;
        while i < n
            invariant
                n == self@.cells.len(),
                i <= n,
                forall|j: int| 0 <= j < i ==> showable(#[trigger] self@.cells[j]),
            decreases n - i,
        {
            let ok = match *self.cell(i) {
                Square::Empty => true,
                Square::Line { flow, from, to } => flow < LETTERS && to != Some(from),
                Square::Entry { flow, .. } => flow < LETTERS,
            };
            if !ok {
                return false;
            }
            i += 1;
        }
        true
    }

    /// Appends the text of the cell at `c` with what stands to its left.
    fn push_cell(&self, out: &mut Vec<u8>, c: Coord)
        requires
            self@.showable(),
            self@.contains(c@),
        ensures
            final(out)@ == old(out)@ + self@.cell_text(c@),
    {
        let cursor = self.selected_square();
        let active = self.selected_flow();
        let here = *self.get(c);
        proof {
            self@.lemma_index_in_range(c@);
        }
        if cursor == c {
            push_byte(out, OPEN);
        } else if c.x > 0 {
            let left = Coord { x: c.x - 1, y: c.y };
            let beside = *self.get(left);
            let linked = match beside {
                Square::Empty => false,
                Square::Line { from, to, .. } => to == Some(Direction::East) || from
                    == Direction::East,
                Square::Entry { dir, .. } => dir == Some(Direction::East),
            };
            if cursor == left {
                push_byte(out, CLOSE);
            } else if linked {
                if active == beside.value() {
                    push_colour(out, BLUE);
                    push_glyph(out, HORIZONTAL);
                    assert(out@ =~= old(out)@ + self@.gap_text(c@));
                } else {
                    push_glyph(out, HORIZONTAL);
                }
            } else {
                push_byte(out, SPACE);
            }
        } else {
            push_byte(out, SPACE);
        }
        assert(out@ == old(out)@ + self@.gap_text(c@));
        if active.is_some() && active == here.value() {
            push_colour(out, BLUE);
        }
        push_square(out, here);
        push_colour(out, WHITE);
        assert(out@ =~= old(out)@ + self@.cell_text(c@));
    }

    /// Appends the text of row `y`.
    fn push_row(&self, out: &mut Vec<u8>, y: usize)
        requires
            self@.showable(),
            y < self@.height,
        ensures
            final(out)@ == old(out)@ + self@.row_text(y as int),
    {
        push_glyph(out, VERTICAL);
        let ghost start = out@;
        let width = self.width();
        let mut x: usize = 0;
        assert(out@ =~= start + self@.cells_text(y as int, 0));
        while x < width
            invariant
                self@.showable(),
                y < self@.height,
                width == self@.width,
                x <= width,
                out@ == start + self@.cells_text(y as int, x as nat),
            decreases width - x,
        {
            self.push_cell(out, Coord { x: x as isize, y: y as isize });
            x += 1;
            assert(out@ =~= start + self@.cells_text(y as int, x as nat));
        }
        let cursor = self.selected_square();
        if cursor.x == width as isize - 1 && cursor.y == y as isize {
            push_byte(out, CLOSE);
        } else {
            push_byte(out, SPACE);
        }
        push_glyph(out, VERTICAL);
        push_byte(out, 0x0a);
        assert(out@ =~= old(out)@ + self@.row_text(y as int));
    }

    /// The picture of the board, as UTF-8 text for a terminal.
    pub fn render(&self) -> (out: Vec<u8>)
        requires
            self@.showable(),
        ensures
            out@ == self@.picture(),
    {
        let mut out: Vec<u8> = Vec::new();
        let width = self.width();
        let height = self.height();
        push_glyph(&mut out, DOWN_RIGHT);
        push_rule(&mut out, 2 * width + 1);
        push_glyph(&mut out, DOWN_LEFT);
        match self.selected_flow() {
            Some(flow) => push_byte(&mut out, 65 + flow as u8),
            None => push_byte(&mut out, DASH),
        }
        push_byte(&mut out, 0x0a);
        let ghost top = out@;
        let mut y: usize = 0;
        assert(out@ =~= top + self@.rows_text(0));
        while y < height
            invariant
                self@.showable(),
                height == self@.height,
                y <= height,
                out@ == top + self@.rows_text(y as nat),
            decreases height - y,
        {
            self.push_row(&mut out, y);
            y += 1;
            assert(out@ =~= top + self@.rows_text(y as nat));
        }
        push_glyph(&mut out, UP_RIGHT);
        push_rule(&mut out, 2 * width + 1);
        push_glyph(&mut out, UP_LEFT);
        push_byte(&mut out, 0x0a);
        assert(out@ =~= self@.picture());
        out
    }
}

} // verus!
