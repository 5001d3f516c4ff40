//! Paths as sequences of moves: what drawing a path changes, and that
//! erasing it and drawing it again gives the same grid.

use vstd::prelude::*;
use crate::board::Grid;
use crate::square::Square;
use crate::topology::{Direction, Point};

verus! {

impl Grid {
    /// The grid after the moves `moves`, one after the other.
    pub open spec fn drawn(self, moves: Seq<Direction>) -> Grid
        decreases moves.len(),
    {
        if moves.len() == 0 {
            self
        } else {
            self.drawn(moves.drop_last()).moved(moves.last())
        }
    }

    /// Each of the moves `moves`, made one after the other, stays within
    /// the grid and takes the path forward: it draws a cell or finishes the
    /// flow.
    pub open spec fn draws(self, moves: Seq<Direction>) -> bool
        decreases moves.len(),
    {
        if moves.len() == 0 {
            true
        } else {
            let before = self.drawn(moves.drop_last());
            &&& self.draws(moves.drop_last())
            &&& before.contains(before.target(moves.last()))
            &&& before.extends(moves.last()) || before.completes(moves.last())
        }
    }

    /// Moves that take the path of the active flow forward keep the grid
    /// consistent and change cells of that flow only: with the flow taken
    /// off, the grid is as it was before them.
    pub proof fn lemma_drawing(self, moves: Seq<Direction>)
        requires
            self.consistent(),
            self.active is Some,
            self.draws(moves),
        ensures
            self.drawn(moves).consistent(),
            self.drawn(moves).width == self.width,
            self.drawn(moves).height == self.height,
            self.drawn(moves).active is Some ==> self.drawn(moves).active == self.active,
            self.same_entries(self.drawn(moves)),
            self.drawn(moves).without(self.active->0).cells == self.without(self.active->0).cells,
            self.drawn(moves).active is Some ==> self.drawn(moves).cursor == self.cursor
                || self.drawn(moves).at(self.drawn(moves).cursor) is Line,
            self.at(self.cursor) is Entry ==> self.drawn(moves).starts_path(self.cursor) && (
            self.drawn(moves).is_origin(self.cursor) || self.drawn(moves).undrawn(self.active)),
        decreases moves.len(),
    {
        if moves.len() == 0 {
            assert(self.linked_at(self.cursor));
        } else {
            let flow = self.active->0;
            let m = moves.last();
            let before = self.drawn(moves.drop_last());
            let after = self.drawn(moves);
            self.lemma_drawing(moves.drop_last());
            before.lemma_move_consistent(m);
            before.lemma_extended(m);
            before.lemma_completed(m);
            before.lemma_without(flow);
            after.lemma_without(flow);
            self.lemma_without(flow);
            assert forall|p: Point| before.contains(p) implies #[trigger] after.without(flow).at(p)
                == before.without(flow).at(p) by {
                assert(after.at(p).without(flow) == before.at(p).without(flow));
            }
            after.without(flow).lemma_same_cells(before.without(flow));
            assert forall|p: Point| self.contains(p) implies (#[trigger] self.at(p) is Entry
                <==> after.at(p) is Entry) by {
                assert(before.at(p) is Entry <==> after.at(p) is Entry);
            }
            assert forall|p: Point|
                self.contains(p) && #[trigger] self.at(p) is Entry implies after.at(p).flow()
                == self.at(p).flow() by {
                assert(before.at(p) is Entry);
                assert(before.at(p).flow() == after.at(p).flow());
            }
            if self.at(self.cursor) is Entry {
                before.lemma_start_kept(m, self.cursor);
            }
        }
    }

    /// A move that takes the path of the active flow forward leaves the
    /// path's start where it is: an endpoint of the flow that starts its
    /// path before the move starts it after the move.
    pub proof fn lemma_start_kept(self, d: Direction, s: Point)
        requires
            self.consistent(),
            self.contains(self.target(d)),
            self.extends(d) || self.completes(d),
            self.starts_path(s),
            self.at(s).flow() == self.active,
            self.is_origin(s) || self.undrawn(self.active),
            self.cursor == s || self.at(self.cursor) is Line,
        ensures
            self.moved(d).starts_path(s),
            self.moved(d).is_origin(s) || self.moved(d).undrawn(self.active),
    {
        let after = self.moved(d);
        let c = self.cursor;
        let t = self.target(d);
        let rank = choose|rank: spec_fn(Point) -> nat| self.ranked_by(rank);
        self.lemma_extended(d);
        self.lemma_completed(d);
        let o = self.lemma_pair(s);
        assert(self.linked_at(s));
        assert(self.linked_at(c));
        assert(t.step(d.reverse()) == c);
        if self.at(c) is Line {
            let y = self.lemma_line_has_origin(rank, c);
            assert(self.is_origin(s));
            let e = self.at(s).exit()->0;
            assert(s.step(e) != t);
            assert(after.at(s.step(e)) is Line);
            assert(after.is_origin(s));
        } else if self.completes(d) {
            assert(t == o);
            assert forall|p: Point| #[trigger] after.is_origin(p) implies after.at(p).flow()
                != self.active by {
                if after.at(p).flow() == self.active {
                    assert(p == s || p == o);
                }
            }
        } else {
            assert(after.is_origin(s));
        }
    }

    /// While the cursor is on an endpoint of the active flow, nothing of the
    /// flow is on the grid: no line, and no link at either endpoint.
    pub proof fn lemma_undrawn(self)
        requires
            self.consistent(),
            self.active is Some,
            self.at(self.cursor) is Entry,
        ensures
            self.without(self.active->0) == self,
    {
        let flow = self.active->0;
        let c = self.cursor;
        let rank = choose|rank: spec_fn(Point) -> nat| self.ranked_by(rank);
        let o = self.lemma_pair(c);
        self.lemma_without(flow);
        assert forall|p: Point| self.contains(p) implies #[trigger] self.without(flow).at(p)
            == self.at(p) by {
            if self.at(p).flow() == Some(flow) {
                assert(self.linked_at(p));
                if self.at(p) is Line {
                    let y = self.lemma_line_has_origin(rank, p);
                } else if let Some(e) = self.at(p).exit() {
                    assert(p == c || p == o);
                    let w = p.step(e);
                    assert(w.step(e.reverse()) == p);
                    if self.at(w) is Line {
                        let y = self.lemma_line_has_origin(rank, w);
                    } else {
                        assert(w == c || w == o);
                    }
                }
            }
        }
        self.without(flow).lemma_same_cells(self);
    }

    /// A path that is erased and drawn again by the same moves is the same
    /// path. Where a flow is active with the cursor on one of its endpoints
    /// and `moves` take its path forward from there, erasing the path from
    /// that endpoint brings back the cells from before the moves. Selecting
    /// the endpoint again after the moves, which erases the path so, brings
    /// back the whole grid from before them, and the same moves from there
    /// bring back the grid from after them.
    pub proof fn lemma_redraw(self, moves: Seq<Direction>)
        requires
            self.consistent(),
            self.active is Some,
            self.at(self.cursor) is Entry,
            self.draws(moves),
        ensures
            self.drawn(moves).restarted(self.cursor).cells == self.cells,
            self.drawn(moves).with_cursor(self.cursor).with_active(None).toggled() == self,
            self.drawn(moves).with_cursor(self.cursor).with_active(None).toggled().drawn(moves)
                == self.drawn(moves),
    {
        let flow = self.active->0;
        let after = self.drawn(moves);
        let back = after.with_cursor(self.cursor).with_active(None);
        self.lemma_drawing(moves);
        self.lemma_undrawn();
        assert(self.at(self.cursor) is Entry <==> after.at(self.cursor) is Entry);
        assert(back.at(self.cursor) == after.at(self.cursor));
        assert(back.without(flow).cells == after.without(flow).cells);
        after.lemma_restarted_without(self.cursor);
    }
}

} // verus!
