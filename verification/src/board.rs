//! The grid: its mathematical model and the board that implements it.

use vstd::prelude::*;
use crate::square::Square;
use crate::topology::{Coord, Point};

verus! {

/// The mathematical model of a board: the cells in row-major order, the
/// highlighted position and the flow that is being drawn, if any.
pub struct Grid {
    pub width: int,
    pub height: int,
    pub cells: Seq<Square>,
    pub cursor: Point,
    pub active: Option<u32>,
}

impl Grid {
    /// The cell sequence is a `width` by `height` rectangle whose coordinates
    /// are representable.
    pub open spec fn wf(self) -> bool {
        &&& 0 <= self.width <= isize::MAX
        &&& 0 <= self.height <= isize::MAX
        &&& self.cells.len() == self.width * self.height
    }

    /// Whether `p` lies within the grid's extent.
    pub open spec fn contains(self, p: Point) -> bool {
        0 <= p.x < self.width && 0 <= p.y < self.height
    }

    /// Row-major index of `p`.
    pub open spec fn index_of(self, p: Point) -> int {
        p.y * self.width + p.x
    }

    /// The cell at `p`.
    pub open spec fn at(self, p: Point) -> Square {
        self.cells[self.index_of(p)]
    }

    /// The grid with the cell at `p` replaced by `s`.
    pub open spec fn put(self, p: Point, s: Square) -> Grid {
        Grid { cells: self.cells.update(self.index_of(p), s), ..self }
    }

    /// The grid with the highlight moved to `p`.
    pub open spec fn with_cursor(self, p: Point) -> Grid {
        Grid { cursor: p, ..self }
    }

    /// The grid with the active flow replaced by `active`.
    pub open spec fn with_active(self, active: Option<u32>) -> Grid {
        Grid { active, ..self }
    }

    /// `p` comes before `q` in row-major order, or is `q`.
    pub open spec fn not_after(p: Point, q: Point) -> bool {
        p.y < q.y || (p.y == q.y && p.x <= q.x)
    }

    /// `q` holds an endpoint of the same flow as the endpoint at `p`, and is
    /// another cell.
    pub open spec fn is_partner(self, p: Point, q: Point) -> bool {
        &&& self.contains(q)
        &&& q != p
        &&& self.at(p) is Entry
        &&& self.at(q) is Entry
        &&& self.at(q).flow() == self.at(p).flow()
    }

    /// `q` is the first partner of `p` in row-major order.
    pub open spec fn is_first_partner(self, p: Point, q: Point) -> bool {
        &&& self.is_partner(p, q)
        &&& forall|r: Point| #[trigger] self.is_partner(p, r) ==> Grid::not_after(q, r)
    }

    /// The first partner of `p` in row-major order, if `p` has one.
    pub open spec fn partner(self, p: Point) -> Option<Point> {
        if exists|q: Point| self.is_first_partner(p, q) {
            Some(choose|q: Point| self.is_first_partner(p, q))
        } else {
            None
        }
    }

    /// A first partner is the only one.
    pub proof fn lemma_first_partner(self, p: Point, q: Point)
        requires
            self.is_first_partner(p, q),
        ensures
            self.partner(p) == Some(q),
    {
        let c = choose|q: Point| self.is_first_partner(p, q);
        assert(self.is_first_partner(p, c));
        assert(self.is_partner(p, c) && self.is_partner(p, q));
        assert(Grid::not_after(c, q) && Grid::not_after(q, c));
    }

    /// Every index of a contained point is an index into the cells.
    pub proof fn lemma_index_in_range(self, p: Point)
        requires
            self.wf(),
            self.contains(p),
        ensures
            0 <= self.index_of(p) < self.cells.len(),
    {
        assert(p.y * self.width + p.x < self.width * self.height) by (nonlinear_arith)
            requires
                0 <= p.x < self.width,
                0 <= p.y < self.height,
        ;
        assert(0 <= p.y * self.width) by (nonlinear_arith)
            requires
                0 <= p.y,
                0 <= self.width,
        ;
    }

    /// Distinct contained points have distinct indices.
    pub proof fn lemma_index_injective(self, p: Point, q: Point)
        requires
            self.wf(),
            self.contains(p),
            self.contains(q),
            self.index_of(p) == self.index_of(q),
        ensures
            p == q,
    {
        assert(p.y == q.y) by (nonlinear_arith)
            requires
                0 <= p.x < self.width,
                0 <= q.x < self.width,
                p.y * self.width + p.x == q.y * self.width + q.x,
        ;
    }

    /// Replacing one cell changes that cell and no other.
    pub proof fn lemma_put(self, p: Point, s: Square)
        requires
            self.wf(),
            self.contains(p),
        ensures
            self.put(p, s).wf(),
            self.put(p, s).at(p) == s,
            forall|q: Point|
                self.contains(q) && q != p ==> #[trigger] self.put(p, s).at(q) == self.at(q),
    {
        self.lemma_index_in_range(p);
        assert forall|q: Point| self.contains(q) && q != p implies #[trigger] self.put(p, s).at(
            q,
        ) == self.at(q) by {
            self.lemma_index_in_range(q);
            if self.index_of(p) == self.index_of(q) {
                self.lemma_index_injective(p, q);
            }
        }
    }

    /// Every index into the cells is the index of a contained point.
    pub proof fn lemma_point_of_index(self, i: int) -> (p: Point)
        requires
            self.wf(),
            0 <= i < self.cells.len(),
        ensures
            self.contains(p),
            self.index_of(p) == i,
    {
        let w = self.width;
        let h = self.height;
        assert(w > 0) by (nonlinear_arith)
            requires
                0 <= w,
                0 < w * h,
        ;
        let x = i % w;
        let y = i / w;
        assert(0 <= x < w && i == y * w + x) by (nonlinear_arith)
            requires
                w > 0,
                x == i % w,
                y == i / w,
        ;
        assert(0 <= y < h) by (nonlinear_arith)
            requires
                w > 0,
                0 <= x < w,
                0 <= i < w * h,
                i == y * w + x,
        ;
        Point { x, y }
    }

    /// Grids of one extent whose cells are the same at every contained
    /// point have the same cells.
    pub proof fn lemma_same_cells(self, other: Grid)
        requires
            self.wf(),
            other.wf(),
            self.width == other.width,
            self.height == other.height,
            forall|p: Point| self.contains(p) ==> #[trigger] self.at(p) == other.at(p),
        ensures
            self.cells == other.cells,
    {
        assert(self.cells.len() == other.cells.len());
        assert forall|i: int| 0 <= i < self.cells.len() implies self.cells[i]
            == other.cells[i] by {
            let p = self.lemma_point_of_index(i);
            assert(self.at(p) == other.at(p));
        }
        assert(self.cells =~= other.cells);
    }

    /// Replacing two cells changes those two and no other.
    pub proof fn lemma_put_two(self, a: Point, x: Square, b: Point, y: Square)
        requires
            self.wf(),
            self.contains(a),
            self.contains(b),
            a != b,
        ensures
            self.put(a, x).put(b, y).wf(),
            self.put(a, x).put(b, y).at(a) == x,
            self.put(a, x).put(b, y).at(b) == y,
            forall|q: Point|
                self.contains(q) && q != a && q != b ==> #[trigger] self.put(a, x).put(b, y).at(q)
                    == self.at(q),
    {
        let g1 = self.put(a, x);
        self.lemma_put(a, x);
        g1.lemma_put(b, y);
        assert(g1.contains(a));
        assert(g1.put(b, y).at(a) == g1.at(a));
        assert forall|q: Point| self.contains(q) && q != a && q != b implies #[trigger] g1.put(
            b,
            y,
        ).at(q) == self.at(q) by {
            assert(g1.at(q) == self.at(q));
        }
    }
}

/// The puzzle board.
pub struct Board {
    width: usize,
    height: usize,
    board: Vec<Square>,
    selected_square: Coord,
    selected_flow: Option<u32>,
}

impl View for Board {
    type V = Grid;

    closed spec fn view(&self) -> Grid {
        Grid {
            width: self.width as int,
            height: self.height as int,
            cells: self.board@,
            cursor: self.selected_square@,
            active: self.selected_flow,
        }
    }
}

impl Board {
    /// A board of the given extent and cells, with the highlight on the top
    /// left cell and no active flow.
    pub fn new(width: usize, height: usize, board: Vec<Square>) -> (b: Board)
        ensures
            b@ == (Grid {
                width: width as int,
                height: height as int,
                cells: board@,
                cursor: Point { x: 0, y: 0 },
                active: None,
            }),
    {
        Board { width, height, board, selected_square: Coord { x: 0, y: 0 }, selected_flow: None }
    }

    /// Number of columns.
    pub fn width(&self) -> (w: usize)
        ensures
            w == self@.width,
    {
        self.width
    }

    /// Number of rows.
    pub fn height(&self) -> (h: usize)
        ensures
            h == self@.height,
    {
        self.height
    }

    /// Number of cells that the board holds.
    pub fn cell_count(&self) -> (n: usize)
        ensures
            n == self@.cells.len(),
    {
        self.board.len()
    }

    /// The highlighted coordinate.
    pub fn selected_square(&self) -> (c: Coord)
        ensures
            c@ == self@.cursor,
    {
        self.selected_square
    }

    /// The flow that is being drawn, if any.
    pub fn selected_flow(&self) -> (f: Option<u32>)
        ensures
            f == self@.active,
    {
        self.selected_flow
    }

    /// Whether the cells form a rectangle of the board's extent.
    pub fn is_rectangular(&self) -> (b: bool)
        ensures
            b == self@.wf(),
    {
        let limit: usize = isize::MAX as usize;
        if self.width > limit || self.height > limit {
            return false;
        }
        let area = self.width.checked_mul(self.height);
        proof {
            assert(self.width * self.height == self@.width * self@.height);
            assert(self@.cells.len() == self.board.len());
        }
        match area {
            Some(n) => n == self.board.len(),
            None => false,
        }
    }

    /// Whether `c` lies within the board's extent.
    pub fn in_bounds(&self, c: Coord) -> (b: bool)
        ensures
            b == self@.contains(c@),
    {
        c.x >= 0 && c.y >= 0 && (c.x as usize) < self.width && (c.y as usize) < self.height
    }

    /// Row-major index of the cell at `c`.
    fn index(&self, c: Coord) -> (i: usize)
        requires
            self@.wf(),
            self@.contains(c@),
        ensures
            i == self@.index_of(c@),
            i < self@.cells.len(),
    {
        let x: usize = c.x as usize;
        let y: usize = c.y as usize;
        proof {
            self@.lemma_index_in_range(c@);
            assert(y == c@.y && x == c@.x && self.width == self@.width);
            assert(y * self.width == c@.y * self@.width);
            assert(self@.index_of(c@) == y * self.width + x);
            assert(self@.cells.len() == self.board.len());
            assert(0 <= y * self.width) by (nonlinear_arith)
                requires
                    0 <= y,
                    0 <= self.width,
            ;
        }
        y * self.width + x
    }

    /// The cell at position `i` of the row-major order.
    pub fn cell(&self, i: usize) -> (sq: &Square)
        requires
            i < self@.cells.len(),
        ensures
            *sq == self@.cells[i as int],
    {
        &self.board[i]
    }

    /// The cell at `c`.
    pub fn get(&self, c: Coord) -> (sq: &Square)
        requires
            self@.wf(),
            self@.contains(c@),
        ensures
            *sq == self@.at(c@),
    {
        let i = self.index(c);
        &self.board[i]
    }

    /// The cell at `c`, for writing.
    pub fn get_mut(&mut self, c: Coord) -> (sq: &mut Square)
        requires
            old(self)@.wf(),
            old(self)@.contains(c@),
        ensures
            *sq == old(self)@.at(c@),
            final(self)@ == old(self)@.put(c@, *final(sq)),
    {
        let i = self.index(c);
        &mut self.board[i]
    }

    /// Replaces the cell at `c` by `s`.
    pub fn set(&mut self, c: Coord, s: Square)
        requires
            old(self)@.wf(),
            old(self)@.contains(c@),
        ensures
            final(self)@ == old(self)@.put(c@, s),
    {
        let i = self.index(c);
        self.board[i] = s;
    }

    /// The other endpoint of the flow whose endpoint is at `c`: the first
    /// one in row-major order, `None` where `c` holds no endpoint or the flow
    /// has no second one.
    pub fn get_other_entry(&self, c: Coord) -> (other: Option<Coord>)
        requires
            self@.wf(),
            self@.contains(c@),
        ensures
            match other {
                Some(o) => {
                    &&& self@.is_partner(c@, o@)
                    &&& forall|q: Point| #[trigger]
                        self@.is_partner(c@, q) ==> Grid::not_after(o@, q)
                },
                None => forall|q: Point| !#[trigger] self@.is_partner(c@, q),
            },
            self@.partner(c@) == match other {
                Some(o) => Some(o@),
                None => None,
            },
    {
        let flow = match self.get(c) {
            Square::Entry { flow, .. } => *flow,
            _ => {
                return None;
            },
        };
        let mut y: usize = 0;
        while y < self.height
            invariant
                self@.wf(),
                self@.contains(c@),
                self@.at(c@) is Entry,
                self@.at(c@).flow() == Some(flow),
                y <= self.height == self@.height,
                forall|q: Point| #[trigger] self@.is_partner(c@, q) ==> y <= q.y,
            decreases self.height - y,
        {
            let mut x: usize = 0;
            while x < self.width
                invariant
                    self@.wf(),
                    self@.contains(c@),
                    self@.at(c@) is Entry,
                    self@.at(c@).flow() == Some(flow),
                    y < self.height == self@.height,
                    x <= self.width == self@.width,
                    forall|q: Point| #[trigger]
                        self@.is_partner(c@, q) ==> y < q.y || (y == q.y && x <= q.x),
                decreases self.width - x,
            {
                let p = Coord { x: x as isize, y: y as isize };
                if p != c {
                    match self.get(p) {
                        Square::Entry { flow: other_flow, .. } => {
                            if *other_flow == flow {
                                proof {
                                    self@.lemma_first_partner(c@, p@);
                                }
                                return Some(p);
                            }
                        },
                        _ => {},
                    }
                }
                x += 1;
            }
            y += 1;
        }
        None
    }

    /// Moves the highlight to `c`.
    pub fn set_selected_square(&mut self, c: Coord)
        ensures
            final(self)@ == old(self)@.with_cursor(c@),
    {
        self.selected_square = c;
    }

    /// Replaces the active flow.
    pub fn set_selected_flow(&mut self, flow: Option<u32>)
        ensures
            final(self)@ == old(self)@.with_active(flow),
    {
        self.selected_flow = flow;
    }
}

} // verus!
