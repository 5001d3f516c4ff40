//! The path engine: drawing a path one step at a time, taking back the last
//! step, and erasing a path from one of its cells onward.

use vstd::pervasive::unreached;
use vstd::prelude::*;
use crate::board::{Board, Grid};
use crate::square::Square;
use crate::topology::{Coord, Direction, Point};

verus! {

/// Number of line cells in `cells`.
pub open spec fn line_count(cells: Seq<Square>) -> nat
    decreases cells.len(),
{
    if cells.len() == 0 {
        0
    } else {
        line_count(cells.drop_last()) + if cells.last() is Line {
            1nat
        } else {
            0nat
        }
    }
}

/// Replacing one cell changes the number of lines by what the old and the new
/// cell count for.
pub proof fn lemma_line_count_update(cells: Seq<Square>, i: int, s: Square)
    requires
        0 <= i < cells.len(),
    ensures
        line_count(cells.update(i, s)) + (if cells[i] is Line {
            1nat
        } else {
            0nat
        }) == line_count(cells) + (if s is Line {
            1nat
        } else {
            0nat
        }),
    decreases cells.len(),
{
    if i == cells.len() - 1 {
        assert(cells.update(i, s).drop_last() == cells.drop_last());
    } else {
        assert(cells.update(i, s).drop_last() == cells.drop_last().update(i, s));
        lemma_line_count_update(cells.drop_last(), i, s);
    }
}

impl Grid {
    /// Number of line cells in the grid.
    pub open spec fn lines(self) -> nat {
        line_count(self.cells)
    }

    /// The cell that a move in direction `d` aims at.
    pub open spec fn target(self, d: Direction) -> Point {
        self.cursor.step(d)
    }

    /// A move in direction `d` draws one more cell of the active flow: the
    /// target is empty.
    pub open spec fn extends(self, d: Direction) -> bool {
        &&& self.active is Some
        &&& self.at(self.target(d)) is Empty
    }

    /// A move in direction `d` takes back the last step: the target belongs
    /// to the active flow and its link leads to the cursor.
    pub open spec fn retracts(self, d: Direction) -> bool {
        &&& self.active is Some
        &&& self.at(self.target(d)).flow() == self.active
        &&& self.at(self.target(d)).exit() == Some(d.reverse())
    }

    /// A move in direction `d` finishes the active flow: the target is an
    /// unlinked endpoint of it.
    pub open spec fn completes(self, d: Direction) -> bool {
        &&& self.active is Some
        &&& self.at(self.target(d)) is Entry
        &&& self.at(self.target(d)).flow() == self.active
        &&& self.at(self.target(d)).exit() is None
    }

    /// A flow is active and the target of a move in direction `d` is occupied
    /// by another flow.
    pub open spec fn meets_other_flow(self, d: Direction) -> bool {
        &&& self.active is Some
        &&& self.at(self.target(d)).flow() is Some
        &&& self.at(self.target(d)).flow() != self.active
    }

    /// A move in direction `d` is refused: a flow is active and the target is
    /// neither empty, nor the previous cell of the path, nor the free endpoint
    /// of the flow.
    pub open spec fn blocked(self, d: Direction) -> bool {
        &&& self.active is Some
        &&& !self.extends(d)
        &&& !self.retracts(d)
        &&& !self.completes(d)
    }

    /// What a move in direction `d` needs: a rectangular grid, a target
    /// within it and, where the move changes the cursor's cell, a cell there
    /// that can take the change.
    pub open spec fn can_move(self, d: Direction) -> bool {
        &&& self.wf()
        &&& self.contains(self.target(d))
        &&& self.extends(d) || self.completes(d) ==> self.contains(self.cursor) && !(self.at(
            self.cursor,
        ) is Empty)
        &&& self.retracts(d) ==> self.contains(self.cursor) && self.at(self.cursor) is Line
    }

    /// The grid after a move in direction `d` that draws: the target becomes
    /// the open end of the active flow's path, the cell under the cursor is
    /// linked to it, and the cursor follows.
    pub open spec fn extended(self, d: Direction) -> Grid {
        self.put(
            self.target(d),
            Square::Line { flow: self.active->0, from: d.reverse(), to: None },
        ).put(self.cursor, self.at(self.cursor).with_exit(Some(d))).with_cursor(self.target(d))
    }

    /// The grid after a move in direction `d` that takes the last step back:
    /// the target loses its link and becomes the open end, the cell under the
    /// cursor is emptied, and the cursor follows.
    pub open spec fn retracted(self, d: Direction) -> Grid {
        self.put(self.target(d), self.at(self.target(d)).with_exit(None)).put(
            self.cursor,
            Square::Empty,
        ).with_cursor(self.target(d))
    }

    /// The grid after a move in direction `d` that finishes the flow: the
    /// target and the cell under the cursor are linked with each other, no
    /// flow is active any more, and the cursor follows.
    pub open spec fn completed(self, d: Direction) -> Grid {
        self.put(self.target(d), self.at(self.target(d)).with_exit(Some(d.reverse()))).put(
            self.cursor,
            self.at(self.cursor).with_exit(Some(d)),
        ).with_active(None).with_cursor(self.target(d))
    }

    /// The grid after a move in direction `d`. Without an active flow only
    /// the cursor moves.
    pub open spec fn moved(self, d: Direction) -> Grid {
        if self.active is None {
            self.with_cursor(self.target(d))
        } else if self.extends(d) {
            self.extended(d)
        } else if self.retracts(d) {
            self.retracted(d)
        } else if self.completes(d) {
            self.completed(d)
        } else {
            self
        }
    }

    /// A flow is active and the cursor is on the open end of its path: a cell
    /// of the flow without an outgoing link.
    pub open spec fn drawing(self) -> bool {
        &&& self.active is Some
        &&& self.contains(self.cursor)
        &&& self.at(self.cursor).flow() == self.active
        &&& self.at(self.cursor).exit() is None
    }

    /// Drawing one cell and taking it back at once leaves the grid as it was:
    /// the cells, the cursor and the active flow. After the step forward the
    /// path is one line longer.
    pub proof fn lemma_extend_then_retract(self, d: Direction)
        requires
            self.wf(),
            self.drawing(),
            self.contains(self.target(d)),
            self.extends(d),
        ensures
            self.moved(d).retracts(d.reverse()),
            self.moved(d).lines() == self.lines() + 1,
            self.moved(d).moved(d.reverse()) == self,
    {
        let t = self.target(d);
        let c = self.cursor;
        let line = Square::Line { flow: self.active->0, from: d.reverse(), to: None };
        let head = self.at(c).with_exit(Some(d));
        let g1 = self.put(t, line);
        let g2 = g1.put(c, head);
        self.lemma_put(t, line);
        g1.lemma_put(c, head);
        self.lemma_index_in_range(t);
        self.lemma_index_in_range(c);
        lemma_line_count_update(self.cells, self.index_of(t), line);
        lemma_line_count_update(g1.cells, g1.index_of(c), head);
        let m = self.moved(d);
        assert(m.target(d.reverse()) == c);
        assert(m.at(c) == head);
        assert(m.at(t) == line);
        let back = m.moved(d.reverse());
        assert(back.cells =~= self.cells);
    }

    /// Emptying a line leaves one line less on the grid.
    pub proof fn lemma_emptying_shortens(self, q: Point)
        ensures
            self.wf() && self.contains(q) && self.at(q) is Line ==> self.put(
                q,
                Square::Empty,
            ).lines() < self.lines(),
    {
        if self.wf() && self.contains(q) {
            self.lemma_index_in_range(q);
            lemma_line_count_update(self.cells, self.index_of(q), Square::Empty);
        }
    }

    /// The walk that starts at `p` in direction `dir` and follows the links
    /// can be erased: it stays within the grid and never meets an empty cell
    /// before it ends, at an endpoint or behind a line without a link.
    pub open spec fn clearable(self, dir: Option<Direction>, p: Point) -> bool
        decreases self.lines(),
        via Self::clearing_terminates
    {
        match dir {
            None => true,
            Some(d) => {
                let q = p.step(d);
                if self.wf() && self.contains(q) {
                    match self.at(q) {
                        Square::Line { to, .. } => self.put(q, Square::Empty).clearable(to, q),
                        Square::Entry { .. } => true,
                        Square::Empty => false,
                    }
                } else {
                    false
                }
            },
        }
    }

    #[via_fn]
    proof fn clearing_terminates(self, dir: Option<Direction>, p: Point) {
        if let Some(d) = dir {
            self.lemma_emptying_shortens(p.step(d));
        }
    }

    /// The grid after erasing the walk that starts at `p` in direction `dir`:
    /// every line on it is emptied, and the endpoint that it ends at, if it
    /// ends at one, loses its link.
    pub open spec fn cleared(self, dir: Option<Direction>, p: Point) -> Grid
        decreases self.lines(),
        via Self::erasing_terminates
    {
        match dir {
            None => self,
            Some(d) => {
                let q = p.step(d);
                if self.wf() && self.contains(q) {
                    match self.at(q) {
                        Square::Line { to, .. } => self.put(q, Square::Empty).cleared(to, q),
                        Square::Entry { flow, .. } => self.put(
                            q,
                            Square::Entry { flow, dir: None },
                        ),
                        Square::Empty => self,
                    }
                } else {
                    self
                }
            },
        }
    }

    #[via_fn]
    proof fn erasing_terminates(self, dir: Option<Direction>, p: Point) {
        if let Some(d) = dir {
            self.lemma_emptying_shortens(p.step(d));
        }
    }

    /// The grid with the endpoint at `s` unlinked and the path that left it
    /// erased.
    pub open spec fn restarted(self, s: Point) -> Grid {
        self.put(s, self.at(s).with_exit(None)).cleared(self.at(s).exit(), s)
    }

    /// The grid with `flow` taken off: its lines are empty and its endpoints
    /// have no link.
    pub open spec fn without(self, flow: u32) -> Grid {
        Grid {
            cells: Seq::new(self.cells.len(), |i: int| self.cells[i].without(flow)),
            ..self
        }
    }

    /// Taking a flow off a grid takes it off each cell.
    pub proof fn lemma_without(self, flow: u32)
        requires
            self.wf(),
        ensures
            self.without(flow).wf(),
            forall|p: Point|
                self.contains(p) ==> #[trigger] self.without(flow).at(p) == self.at(p).without(
                    flow,
                ),
    {
        assert forall|p: Point| self.contains(p) implies #[trigger] self.without(flow).at(p)
            == self.at(p).without(flow) by {
            self.lemma_index_in_range(p);
        }
    }

}

impl Board {
    /// Erases the path that leaves `sqr` in direction `dir`: every line on it
    /// becomes empty, and an endpoint at its end loses its link.
    pub fn clear_line(&mut self, dir: Option<Direction>, sqr: Coord)
        requires
            old(self)@.clearable(dir, sqr@),
        ensures
            final(self)@ == old(self)@.cleared(dir, sqr@),
    {
        let ghost goal = self@.cleared(dir, sqr@);
        let mut dir = dir;
        let mut sqr = sqr;
        while dir.is_some()
            invariant
                self@.clearable(dir, sqr@),
                self@.cleared(dir, sqr@) == goal,
            decreases self@.lines(), if dir is Some { 1nat } else { 0nat },
        {
            let next = dir.unwrap();
            let ghost before = self@;
            sqr = sqr + next.as_coord();
            proof {
                before.lemma_index_in_range(sqr@);
            }
            let here = *self.get(sqr);
            match here {
                Square::Line { to, .. } => {
                    dir = to;
                    self.set(sqr, Square::Empty);
                    proof {
                        lemma_line_count_update(
                            before.cells,
                            before.index_of(sqr@),
                            Square::Empty,
                        );
                    }
                },
                Square::Entry { flow, .. } => {
                    self.set(sqr, Square::Entry { flow, dir: None });
                    dir = None;
                    proof {
                        lemma_line_count_update(
                            before.cells,
                            before.index_of(sqr@),
                            Square::Entry { flow, dir: None },
                        );
                    }
                },
                Square::Empty => unreached(),
            }
        }
    }
}

/// Moves the cursor one step in direction `dir`. With an active flow the move
/// draws the next cell of its path, takes the last one back, joins the path to
/// the flow's free endpoint, or is refused and changes nothing. A cell of
/// another flow always refuses the move. On a consistent grid every move
/// within the extent can be made (`Grid::lemma_move_consistent`), and the
/// grid is consistent after it.
pub fn move_line(board: &mut Board, dir: Direction)
    requires
        old(board)@.can_move(dir),
    ensures
        final(board)@ == old(board)@.moved(dir),
        old(board)@.blocked(dir) ==> final(board)@ == old(board)@,
        old(board)@.meets_other_flow(dir) ==> final(board)@ == old(board)@,
        old(board)@.consistent() ==> final(board)@.consistent(),
{
    proof {
        if board@.consistent() {
            board@.lemma_move_consistent(dir);
        }
    }
    let here = board.selected_square();
    let there = here + dir.as_coord();
    match board.selected_flow() {
        Some(curr_flow) => {
            let target = *board.get(there);
            let back = dir.oposite();
            proof {
                board@.lemma_put(there@, Square::Line { flow: curr_flow, from: back, to: None });
                board@.lemma_put(there@, target.with_exit(None));
                board@.lemma_put(there@, target.with_exit(Some(back)));
            }
            if target.is_empty() {
                board.set(there, Square::Line { flow: curr_flow, from: back, to: None });
                let head = board.get(here).linked(Some(dir));
                board.set(here, head);
                board.set_selected_square(there);
            } else if target.value() == Some(curr_flow) && target.exit_dir() == Some(back) {
                board.set(there, target.linked(None));
                board.set(here, Square::Empty);
                board.set_selected_square(there);
            } else if target.is_entry() && target.value() == Some(curr_flow)
                && target.exit_dir().is_none() {
                board.set(there, target.linked(Some(back)));
                let head = board.get(here).linked(Some(dir));
                board.set(here, head);
                board.set_selected_flow(None);
                board.set_selected_square(there);
            }
        },
        None => {
            board.set_selected_square(there);
        },
    }
}

} // verus!
