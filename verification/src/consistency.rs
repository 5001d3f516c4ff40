//! What holds of every grid during play, and why each move keeps it.

use vstd::prelude::*;
use crate::board::Grid;
use crate::square::Square;
use crate::topology::{Direction, Point};

verus! {

impl Grid {
    /// The endpoint at `p` has a partner, and one only.
    pub open spec fn has_single_partner(self, p: Point) -> bool {
        &&& self.partner(p) is Some
        &&& forall|r: Point| #[trigger] self.is_partner(p, r) ==> self.partner(p) == Some(r)
    }

    /// Every flow has exactly two endpoints.
    pub open spec fn paired(self) -> bool {
        forall|p: Point|
            self.contains(p) && self.at(p) is Entry ==> #[trigger] self.has_single_partner(p)
    }

    /// A line at `p` has the cell that it came from behind it: a cell of the
    /// same flow whose link leads to `p`. The line does not go back there.
    pub open spec fn back_linked(self, p: Point) -> bool {
        self.at(p) matches Square::Line { flow, from, to } ==> {
            &&& to != Some(from)
            &&& self.contains(p.step(from))
            &&& self.at(p.step(from)).flow() == Some(flow)
            &&& self.at(p.step(from)).exit() == Some(from.reverse())
        }
    }

    /// A link at `p` leads to a cell of the same flow that answers it: a line
    /// that came from `p`, an endpoint linked back to `p`, or, for an
    /// endpoint at `p` that a path ends at, the last line of that path.
    pub open spec fn forth_linked(self, p: Point) -> bool {
        self.at(p).exit() matches Some(d) ==> {
            &&& self.contains(p.step(d))
            &&& self.at(p.step(d)).flow() == self.at(p).flow()
            &&& match self.at(p.step(d)) {
                Square::Line { from, to, .. } => from == d.reverse() || (self.at(p) is Entry
                    && to == Some(d.reverse())),
                Square::Entry { dir, .. } => dir == Some(d.reverse()),
                Square::Empty => false,
            }
        }
    }

    /// The links of the cell at `p` are answered in both directions.
    pub open spec fn linked_at(self, p: Point) -> bool {
        self.back_linked(p) && self.forth_linked(p)
    }

    /// Every path is doubly linked.
    pub open spec fn linked(self) -> bool {
        forall|p: Point| self.contains(p) ==> #[trigger] self.linked_at(p)
    }

    /// `rank` grows along every path: a line that follows a line ranks
    /// higher than it.
    pub open spec fn ranked_by(self, rank: spec_fn(Point) -> nat) -> bool {
        forall|p: Point|
            self.contains(p) && self.at(p) is Line && self.contains(p.step(self.at(p)->from))
                && self.at(p.step(self.at(p)->from)) is Line ==> rank(
                p.step(self.at(p)->from),
            ) < #[trigger] rank(p)
    }

    /// No path runs in a circle.
    pub open spec fn acyclic(self) -> bool {
        exists|rank: spec_fn(Point) -> nat| self.ranked_by(rank)
    }

    /// A path starts at the endpoint at `p`: the endpoint's link leads to a
    /// line that came from it.
    pub open spec fn is_origin(self, p: Point) -> bool {
        &&& self.contains(p)
        &&& self.at(p) is Entry
        &&& self.at(p).exit() matches Some(d)
        &&& self.contains(p.step(d))
        &&& self.at(p.step(d)) matches Square::Line { from, .. }
        &&& from == d.reverse()
    }

    /// No flow has a path from each of its endpoints.
    pub open spec fn single_pathed(self) -> bool {
        forall|p: Point, q: Point|
            #![trigger self.is_origin(p), self.is_origin(q)]
            self.is_origin(p) && self.is_origin(q) && self.at(p).flow() == self.at(q).flow()
                ==> p == q
    }

    /// No path of `flow` has been drawn.
    pub open spec fn undrawn(self, flow: Option<u32>) -> bool {
        forall|p: Point| #[trigger] self.is_origin(p) ==> self.at(p).flow() != flow
    }

    /// What holds of a grid throughout play: it is a rectangle that contains
    /// the cursor, every flow has two endpoints, every path is doubly linked,
    /// starts at an endpoint and is the only one of its flow, and while a
    /// flow is active the cursor is on the open end of its path.
    pub open spec fn consistent(self) -> bool {
        &&& self.wf()
        &&& self.contains(self.cursor)
        &&& self.paired()
        &&& self.linked()
        &&& self.acyclic()
        &&& self.single_pathed()
        &&& self.active is Some ==> self.drawing()
        &&& self.active is Some && self.at(self.cursor) is Entry ==> self.undrawn(self.active)
    }

    /// Both grids have the same extent and the same endpoints.
    pub open spec fn same_entries(self, other: Grid) -> bool {
        &&& self.width == other.width
        &&& self.height == other.height
        &&& forall|p: Point|
            self.contains(p) ==> (#[trigger] self.at(p) is Entry <==> other.at(p) is Entry)
        &&& forall|p: Point|
            self.contains(p) && #[trigger] self.at(p) is Entry ==> other.at(p).flow() == self.at(
                p,
            ).flow()
    }

    /// Pairing is a matter of the endpoints alone.
    pub proof fn lemma_paired_by_entries(self, other: Grid)
        requires
            self.paired(),
            self.same_entries(other),
        ensures
            other.paired(),
    {
        assert forall|p: Point| other.contains(p) && other.at(p) is Entry implies #[trigger]
            other.has_single_partner(p) by {
            assert(self.at(p) is Entry);
            assert(self.has_single_partner(p));
            let q = self.partner(p)->0;
            assert(self.is_first_partner(p, q));
            assert forall|r: Point| self.is_partner(p, r) == other.is_partner(p, r) by {
                if self.contains(r) {
                    assert(self.at(r) is Entry <==> other.at(r) is Entry);
                }
            }
            assert(other.is_first_partner(p, q));
            other.lemma_first_partner(p, q);
        }
    }

    /// The cells of the grid after a move that draws.
    pub proof fn lemma_extended(self, d: Direction)
        requires
            self.wf(),
            self.contains(self.cursor),
            self.contains(self.target(d)),
        ensures
            self.extended(d).wf(),
            self.extended(d).width == self.width,
            self.extended(d).height == self.height,
            self.extended(d).active == self.active,
            self.extended(d).cursor == self.target(d),
            self.extended(d).at(self.target(d)) == (Square::Line {
                flow: self.active->0,
                from: d.reverse(),
                to: None,
            }),
            self.extended(d).at(self.cursor) == self.at(self.cursor).with_exit(Some(d)),
            forall|q: Point|
                self.contains(q) && q != self.cursor && q != self.target(d) ==> #[trigger]
                    self.extended(d).at(q) == self.at(q),
    {
        let line = Square::Line { flow: self.active->0, from: d.reverse(), to: None };
        let head = self.at(self.cursor).with_exit(Some(d));
        let g2 = self.put(self.target(d), line).put(self.cursor, head);
        self.lemma_put_two(self.target(d), line, self.cursor, head);
        assert(self.extended(d).at(self.target(d)) == g2.at(self.target(d)));
        assert(self.extended(d).at(self.cursor) == g2.at(self.cursor));
        assert forall|q: Point|
            self.contains(q) && q != self.cursor && q != self.target(d) implies #[trigger]
            self.extended(d).at(q) == self.at(q) by {
            assert(g2.at(q) == self.at(q));
        }
    }

    /// The cells of the grid after a move that takes the last step back.
    pub proof fn lemma_retracted(self, d: Direction)
        requires
            self.wf(),
            self.contains(self.cursor),
            self.contains(self.target(d)),
        ensures
            self.retracted(d).wf(),
            self.retracted(d).width == self.width,
            self.retracted(d).height == self.height,
            self.retracted(d).active == self.active,
            self.retracted(d).cursor == self.target(d),
            self.retracted(d).at(self.target(d)) == self.at(self.target(d)).with_exit(None),
            self.retracted(d).at(self.cursor) == Square::Empty,
            forall|q: Point|
                self.contains(q) && q != self.cursor && q != self.target(d) ==> #[trigger]
                    self.retracted(d).at(q) == self.at(q),
    {
        let prev = self.at(self.target(d)).with_exit(None);
        let g2 = self.put(self.target(d), prev).put(self.cursor, Square::Empty);
        self.lemma_put_two(self.target(d), prev, self.cursor, Square::Empty);
        assert(self.retracted(d).at(self.target(d)) == g2.at(self.target(d)));
        assert(self.retracted(d).at(self.cursor) == g2.at(self.cursor));
        assert forall|q: Point|
            self.contains(q) && q != self.cursor && q != self.target(d) implies #[trigger]
            self.retracted(d).at(q) == self.at(q) by {
            assert(g2.at(q) == self.at(q));
        }
    }

    /// The cells of the grid after a move that finishes the flow.
    pub proof fn lemma_completed(self, d: Direction)
        requires
            self.wf(),
            self.contains(self.cursor),
            self.contains(self.target(d)),
        ensures
            self.completed(d).wf(),
            self.completed(d).width == self.width,
            self.completed(d).height == self.height,
            self.completed(d).active is None,
            self.completed(d).cursor == self.target(d),
            self.completed(d).at(self.target(d)) == self.at(self.target(d)).with_exit(
                Some(d.reverse()),
            ),
            self.completed(d).at(self.cursor) == self.at(self.cursor).with_exit(Some(d)),
            forall|q: Point|
                self.contains(q) && q != self.cursor && q != self.target(d) ==> #[trigger]
                    self.completed(d).at(q) == self.at(q),
    {
        let last = self.at(self.target(d)).with_exit(Some(d.reverse()));
        let head = self.at(self.cursor).with_exit(Some(d));
        let g2 = self.put(self.target(d), last).put(self.cursor, head);
        self.lemma_put_two(self.target(d), last, self.cursor, head);
        assert(self.completed(d).at(self.target(d)) == g2.at(self.target(d)));
        assert(self.completed(d).at(self.cursor) == g2.at(self.cursor));
        assert forall|q: Point|
            self.contains(q) && q != self.cursor && q != self.target(d) implies #[trigger]
            self.completed(d).at(q) == self.at(q) by {
            assert(g2.at(q) == self.at(q));
        }
    }

    /// Drawing keeps every path doubly linked.
    pub proof fn lemma_extended_linked(self, d: Direction)
        requires
            self.wf(),
            self.linked(),
            self.drawing(),
            self.contains(self.target(d)),
            self.extends(d),
        ensures
            self.extended(d).linked(),
    {
        self.lemma_extended(d);
        let m = self.extended(d);
        assert forall|q: Point| m.contains(q) implies #[trigger] m.linked_at(q) by {
            assert(self.linked_at(q));
        }
    }

    /// Drawing keeps every path free of circles.
    pub proof fn lemma_extended_acyclic(self, d: Direction)
        requires
            self.wf(),
            self.linked(),
            self.acyclic(),
            self.drawing(),
            self.contains(self.target(d)),
            self.extends(d),
        ensures
            self.extended(d).acyclic(),
    {
        self.lemma_extended(d);
        let m = self.extended(d);
        let t = self.target(d);
        let c = self.cursor;
        let rank = choose|rank: spec_fn(Point) -> nat| self.ranked_by(rank);
        let next = |p: Point|
            if p == t {
                rank(c) + 1
            } else {
                rank(p)
            };
        assert forall|p: Point|
            m.contains(p) && m.at(p) is Line && m.contains(p.step(m.at(p)->from)) && m.at(
                p.step(m.at(p)->from),
            ) is Line implies next(p.step(m.at(p)->from)) < #[trigger] next(p) by {
            assert(self.linked_at(p));
            if p != t {
                assert(rank(p.step(self.at(p)->from)) < rank(p));
            }
        }
        assert(m.ranked_by(next));
    }

    /// Drawing keeps every flow at one path.
    pub proof fn lemma_extended_single_pathed(self, d: Direction)
        requires
            self.wf(),
            self.linked(),
            self.single_pathed(),
            self.drawing(),
            self.at(self.cursor) is Entry ==> self.undrawn(self.active),
            self.contains(self.target(d)),
            self.extends(d),
        ensures
            self.extended(d).single_pathed(),
    {
        self.lemma_extended(d);
        let m = self.extended(d);
        let c = self.cursor;
        assert forall|p: Point| p != c && #[trigger] m.is_origin(p) implies self.is_origin(p) by {
            assert(self.linked_at(p));
        }
        assert forall|p: Point, q: Point|
            #![trigger m.is_origin(p), m.is_origin(q)]
            m.is_origin(p) && m.is_origin(q) && m.at(p).flow() == m.at(q).flow() implies p
            == q by {
            if p != c && q != c {
                assert(self.is_origin(p) && self.is_origin(q));
            } else if p != c {
                assert(self.is_origin(p));
            } else if q != c {
                assert(self.is_origin(q));
            }
        }
    }

    /// Taking a step back keeps every path doubly linked.
    pub proof fn lemma_retracted_linked(self, d: Direction)
        requires
            self.wf(),
            self.linked(),
            self.drawing(),
            self.contains(self.target(d)),
            self.retracts(d),
        ensures
            self.at(self.cursor) is Line,
            self.at(self.cursor)->from == d,
            self.retracted(d).linked(),
    {
        self.lemma_retracted(d);
        let m = self.retracted(d);
        assert(self.linked_at(self.target(d)));
        assert(self.linked_at(self.cursor));
        assert(self.target(d).step(d.reverse()) == self.cursor);
        assert forall|q: Point| m.contains(q) implies #[trigger] m.linked_at(q) by {
            assert(self.linked_at(q));
        }
    }

    /// Taking a step back keeps every flow at one path, and leaves a flow
    /// undrawn whose endpoint the cursor has come back to.
    pub proof fn lemma_retracted_single_pathed(self, d: Direction)
        requires
            self.wf(),
            self.linked(),
            self.single_pathed(),
            self.drawing(),
            self.contains(self.target(d)),
            self.retracts(d),
        ensures
            self.retracted(d).single_pathed(),
            self.at(self.target(d)) is Entry ==> self.retracted(d).undrawn(self.active),
    {
        self.lemma_retracted(d);
        self.lemma_retracted_linked(d);
        let m = self.retracted(d);
        let t = self.target(d);
        assert(t.step(d.reverse()) == self.cursor);
        assert forall|p: Point| #[trigger] m.is_origin(p) implies self.is_origin(p) && p != t by {
            assert(self.linked_at(p));
        }
        if self.at(t) is Entry {
            assert(self.is_origin(t));
            assert forall|p: Point| #[trigger] m.is_origin(p) implies m.at(p).flow()
                != self.active by {
                assert(self.is_origin(p) && self.is_origin(t));
            }
        }
    }

    /// Finishing a flow keeps every path doubly linked.
    pub proof fn lemma_completed_linked(self, d: Direction)
        requires
            self.wf(),
            self.linked(),
            self.drawing(),
            self.contains(self.target(d)),
            self.completes(d),
        ensures
            self.completed(d).linked(),
    {
        self.lemma_completed(d);
        let m = self.completed(d);
        assert(self.linked_at(self.target(d)));
        assert(self.linked_at(self.cursor));
        assert(self.target(d).step(d.reverse()) == self.cursor);
        assert forall|q: Point| m.contains(q) implies #[trigger] m.linked_at(q) by {
            assert(self.linked_at(q));
        }
    }

    /// Finishing a flow keeps every flow at one path.
    pub proof fn lemma_completed_single_pathed(self, d: Direction)
        requires
            self.wf(),
            self.linked(),
            self.single_pathed(),
            self.drawing(),
            self.contains(self.target(d)),
            self.completes(d),
        ensures
            self.completed(d).single_pathed(),
    {
        self.lemma_completed(d);
        let m = self.completed(d);
        let t = self.target(d);
        assert(t.step(d.reverse()) == self.cursor);
        assert(self.linked_at(self.cursor));
        assert forall|p: Point| #[trigger] m.is_origin(p) implies self.is_origin(p) by {
            assert(self.linked_at(p));
        }
    }

    /// A grid whose lines are lines of a grid without circles, each with the
    /// cell behind it, has no circles either.
    pub proof fn lemma_acyclic_by_lines(self, other: Grid)
        requires
            self.acyclic(),
            self.width == other.width,
            self.height == other.height,
            forall|p: Point|
                other.contains(p) && #[trigger] other.at(p) is Line ==> self.at(p) is Line
                    && self.at(p)->from == other.at(p)->from,
        ensures
            other.acyclic(),
    {
        let rank = choose|rank: spec_fn(Point) -> nat| self.ranked_by(rank);
        assert forall|p: Point|
            other.contains(p) && other.at(p) is Line && other.contains(
                p.step(other.at(p)->from),
            ) && other.at(p.step(other.at(p)->from)) is Line implies rank(
            p.step(other.at(p)->from),
        ) < #[trigger] rank(p) by {
            assert(self.at(p) is Line);
            assert(self.at(p.step(other.at(p)->from)) is Line);
        }
        assert(other.ranked_by(rank));
    }

    /// A move within the grid can be made, and the grid is as consistent
    /// after it as before.
    pub proof fn lemma_move_consistent(self, d: Direction)
        requires
            self.consistent(),
            self.contains(self.target(d)),
        ensures
            self.can_move(d),
            self.moved(d).consistent(),
    {
        let m = self.moved(d);
        let t = self.target(d);
        if self.active is None {
            assert(self.same_entries(m));
            self.lemma_paired_by_entries(m);
            assert forall|p: Point| m.contains(p) implies #[trigger] m.linked_at(p) by {
                assert(self.linked_at(p));
            }
            self.lemma_acyclic_by_lines(m);
            assert forall|p: Point| #[trigger] m.is_origin(p) implies self.is_origin(p) by {}
        } else if self.extends(d) {
            self.lemma_extended(d);
            self.lemma_extended_linked(d);
            self.lemma_extended_acyclic(d);
            self.lemma_extended_single_pathed(d);
            assert(self.same_entries(m));
            self.lemma_paired_by_entries(m);
        } else if self.retracts(d) {
            self.lemma_retracted(d);
            self.lemma_retracted_linked(d);
            self.lemma_retracted_single_pathed(d);
            self.lemma_acyclic_by_lines(m);
            assert(self.same_entries(m));
            self.lemma_paired_by_entries(m);
        } else if self.completes(d) {
            self.lemma_completed(d);
            self.lemma_completed_linked(d);
            self.lemma_completed_single_pathed(d);
            self.lemma_acyclic_by_lines(m);
            assert(self.same_entries(m));
            self.lemma_paired_by_entries(m);
        }
    }
}

} // verus!
