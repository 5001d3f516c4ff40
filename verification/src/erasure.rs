//! Why a path can be erased from its start, and what is left after it.

use vstd::prelude::*;
use crate::board::Grid;
use crate::path::lemma_line_count_update;
use crate::square::Square;
use crate::topology::{Direction, Point};

verus! {

/// What erasing may make of a cell: nothing, an empty cell of a line, an
/// unlinked endpoint of an endpoint.
pub open spec fn faded(before: Square, after: Square) -> bool {
    ||| after == before
    ||| before is Line && after is Empty
    ||| before is Entry && after == before.with_exit(None)
}

/// What erasing makes of a cell that it comes to: an empty cell of a line,
/// an unlinked endpoint of an endpoint.
pub open spec fn erased(before: Square, after: Square) -> bool {
    &&& before is Line ==> after is Empty
    &&& before is Entry ==> after == before.with_exit(None)
}

impl Grid {
    /// `other` has the extent of this grid, and each cell of it is the cell
    /// of this grid or what erasing makes of it.
    pub open spec fn fades_to(self, other: Grid) -> bool {
        &&& other.wf()
        &&& other.width == self.width
        &&& other.height == self.height
        &&& forall|q: Point| self.contains(q) ==> faded(self.at(q), #[trigger] other.at(q))
    }

    /// Fading keeps the pairs of endpoints, adds no circle and starts no
    /// path.
    pub proof fn lemma_fading_keeps(self, other: Grid)
        requires
            self.paired(),
            self.acyclic(),
            self.single_pathed(),
            self.fades_to(other),
        ensures
            other.paired(),
            other.acyclic(),
            other.single_pathed(),
            forall|p: Point| #[trigger] other.is_origin(p) ==> self.is_origin(p),
    {
        assert forall|p: Point| self.contains(p) implies (#[trigger] self.at(p) is Entry
            <==> other.at(p) is Entry) by {
            assert(faded(self.at(p), other.at(p)));
        }
        assert forall|p: Point| self.contains(p) && #[trigger] self.at(p) is Entry implies other.at(
            p,
        ).flow() == self.at(p).flow() by {
            assert(faded(self.at(p), other.at(p)));
        }
        assert(self.same_entries(other));
        self.lemma_paired_by_entries(other);
        assert forall|p: Point| other.contains(p) && #[trigger] other.at(p) is Line implies self.at(
            p,
        ) is Line && self.at(p)->from == other.at(p)->from by {
            assert(faded(self.at(p), other.at(p)));
        }
        self.lemma_acyclic_by_lines(other);
        assert forall|p: Point| #[trigger] other.is_origin(p) implies self.is_origin(p) by {
            assert(faded(self.at(p), other.at(p)));
            let d = other.at(p).exit()->0;
            assert(faded(self.at(p.step(d)), other.at(p.step(d))));
        }
    }

    /// Erasing only fades cells.
    pub proof fn lemma_cleared_fades(self, dir: Option<Direction>, p: Point)
        requires
            self.wf(),
        ensures
            self.fades_to(self.cleared(dir, p)),
            self.cleared(dir, p).cursor == self.cursor,
            self.cleared(dir, p).active == self.active,
        decreases self.lines(),
    {
        if let Some(d) = dir {
            let q = p.step(d);
            if self.contains(q) {
                self.lemma_index_in_range(q);
                match self.at(q) {
                    Square::Line { to, .. } => {
                        let next = self.put(q, Square::Empty);
                        self.lemma_put(q, Square::Empty);
                        lemma_line_count_update(self.cells, self.index_of(q), Square::Empty);
                        next.lemma_cleared_fades(to, q);
                        let last = next.cleared(to, q);
                        assert forall|r: Point| self.contains(r) implies faded(
                            self.at(r),
                            #[trigger] last.at(r),
                        ) by {
                            assert(faded(next.at(r), last.at(r)));
                        }
                    },
                    Square::Entry { flow, .. } => {
                        self.lemma_put(q, Square::Entry { flow, dir: None });
                    },
                    Square::Empty => {},
                }
            }
        }
    }

    /// The state of a grid while a path is erased from it. The walk has come
    /// to `p`, which holds no line and no link any more, and goes on in
    /// direction `dir`. The cell that it comes to next is the one that `p`
    /// was linked with; every other cell is linked as in a consistent grid.
    pub open spec fn erasing(self, dir: Option<Direction>, p: Point) -> bool {
        &&& self.wf()
        &&& self.contains(p)
        &&& !(self.at(p) is Line)
        &&& self.at(p).exit() is None
        &&& match dir {
            None => self.linked(),
            Some(d) => {
                &&& self.contains(p.step(d))
                &&& match self.at(p.step(d)) {
                    Square::Line { from, .. } => from == d.reverse() && self.forth_linked(
                        p.step(d),
                    ),
                    Square::Entry { dir, .. } => dir == Some(d.reverse()),
                    Square::Empty => false,
                }
                &&& forall|q: Point|
                    self.contains(q) && q != p.step(d) ==> #[trigger] self.linked_at(q)
            },
        }
    }

    /// Emptying the line that the walk comes to next leaves a grid in which
    /// the walk goes on from there.
    pub proof fn lemma_erasing_line(self, d: Direction, p: Point)
        requires
            self.erasing(Some(d), p),
            self.at(p.step(d)) is Line,
        ensures
            self.put(p.step(d), Square::Empty).erasing(self.at(p.step(d))->to, p.step(d)),
    {
        let v = p.step(d);
        let next = self.put(v, Square::Empty);
        self.lemma_put(v, Square::Empty);
        assert(v.step(d.reverse()) == p);
        match self.at(v)->to {
            None => {
                assert forall|q: Point| next.contains(q) implies #[trigger] next.linked_at(q) by {
                    if q != v {
                        assert(self.linked_at(q));
                        next.lemma_linked_beside(self, q, v);
                    }
                }
            },
            Some(e) => {
                let w = v.step(e);
                assert(w.step(e.reverse()) == v);
                assert(w != v);
                assert(next.at(w) == self.at(w));
                assert forall|q: Point| next.contains(q) && q != w implies #[trigger]
                    next.linked_at(q) by {
                    if q != v {
                        assert(self.linked_at(q));
                        next.lemma_linked_beside(self, q, v);
                    }
                }
                if self.at(w) is Line {
                    assert(self.linked_at(w));
                    assert(self.forth_linked(w));
                    if self.at(w)->to is Some {
                        assert(w.step(self.at(w)->to->0) != v);
                    }
                    assert(next.forth_linked(w));
                }
            },
        }
    }

    /// Where this grid is `before` with the cell at `v` faded, a cell `q`
    /// that is linked in `before`, and with neither link to `v`, is linked
    /// in this grid.
    pub proof fn lemma_linked_beside(self, before: Grid, q: Point, v: Point)
        requires
            before.wf(),
            self.wf(),
            self.width == before.width,
            self.height == before.height,
            before.contains(q),
            before.contains(v),
            q != v,
            forall|r: Point| before.contains(r) && r != v ==> #[trigger] self.at(r) == before.at(r),
            before.linked_at(q),
            before.at(q) matches Square::Line { from, .. } ==> q.step(from) != v,
            before.at(q).exit() matches Some(e) ==> q.step(e) != v,
        ensures
            self.linked_at(q),
    {
        assert(self.at(q) == before.at(q));
        if let Square::Line { from, .. } = before.at(q) {
            assert(self.at(q.step(from)) == before.at(q.step(from)));
        }
        if let Some(e) = before.at(q).exit() {
            assert(self.at(q.step(e)) == before.at(q.step(e)));
        }
    }

    /// Unlinking the endpoint that the walk ends at leaves every path doubly
    /// linked.
    pub proof fn lemma_erasing_entry(self, d: Direction, p: Point)
        requires
            self.erasing(Some(d), p),
            self.at(p.step(d)) is Entry,
        ensures
            self.put(p.step(d), self.at(p.step(d)).with_exit(None)).linked(),
    {
        let v = p.step(d);
        let last = self.put(v, self.at(v).with_exit(None));
        self.lemma_put(v, self.at(v).with_exit(None));
        assert(v.step(d.reverse()) == p);
        assert forall|q: Point| last.contains(q) implies #[trigger] last.linked_at(q) by {
            if q != v {
                assert(self.linked_at(q));
                last.lemma_linked_beside(self, q, v);
            }
        }
    }

    /// A path that is being erased can be erased to its end, and after that
    /// every path that is left is doubly linked.
    pub proof fn lemma_erasing(self, dir: Option<Direction>, p: Point)
        requires
            self.erasing(dir, p),
        ensures
            self.clearable(dir, p),
            self.cleared(dir, p).linked(),
        decreases self.lines(),
    {
        if let Some(d) = dir {
            let v = p.step(d);
            self.lemma_index_in_range(v);
            match self.at(v) {
                Square::Line { to, .. } => {
                    let next = self.put(v, Square::Empty);
                    lemma_line_count_update(self.cells, self.index_of(v), Square::Empty);
                    self.lemma_erasing_line(d, p);
                    next.lemma_erasing(to, v);
                },
                Square::Entry { flow, .. } => {
                    self.lemma_erasing_entry(d, p);
                },
                Square::Empty => {},
            }
        }
    }

    /// Erasing changes the first cell of the walk.
    pub proof fn lemma_cleared_first(self, d: Direction, p: Point)
        requires
            self.wf(),
            self.contains(p.step(d)),
        ensures
            erased(self.at(p.step(d)), self.cleared(Some(d), p).at(p.step(d))),
    {
        let v = p.step(d);
        match self.at(v) {
            Square::Line { to, .. } => {
                let next = self.put(v, Square::Empty);
                self.lemma_put(v, Square::Empty);
                next.lemma_cleared_fades(to, v);
                assert(faded(next.at(v), next.cleared(to, v).at(v)));
            },
            Square::Entry { flow, .. } => {
                self.lemma_put(v, Square::Entry { flow, dir: None });
            },
            Square::Empty => {},
        }
    }

    /// Erasing follows the links: where it has emptied a line, it has
    /// changed the cell that the line led to as well.
    pub proof fn lemma_cleared_follows(self, dir: Option<Direction>, p: Point, q: Point)
        requires
            self.wf(),
            self.contains(q),
            self.at(q) is Line,
            self.at(q)->to is Some,
            self.contains(q.step(self.at(q)->to->0)),
            self.cleared(dir, p).at(q) is Empty,
        ensures
            erased(
                self.at(q.step(self.at(q)->to->0)),
                self.cleared(dir, p).at(q.step(self.at(q)->to->0)),
            ),
        decreases self.lines(),
    {
        let e = self.at(q)->to->0;
        let w = q.step(e);
        assert(w != q);
        if let Some(d) = dir {
            let v = p.step(d);
            if self.contains(v) {
                self.lemma_index_in_range(v);
                match self.at(v) {
                    Square::Line { to, .. } => {
                        let next = self.put(v, Square::Empty);
                        self.lemma_put(v, Square::Empty);
                        lemma_line_count_update(self.cells, self.index_of(v), Square::Empty);
                        if q == v {
                            next.lemma_cleared_first(e, v);
                            assert(next.at(w) == self.at(w));
                        } else {
                            assert(next.at(q) == self.at(q));
                            next.lemma_cleared_follows(to, v, q);
                            if w == v {
                                next.lemma_cleared_fades(to, v);
                                assert(faded(next.at(v), next.cleared(to, v).at(v)));
                            } else {
                                assert(next.at(w) == self.at(w));
                            }
                        }
                    },
                    Square::Entry { flow, .. } => {
                        self.lemma_put(v, Square::Entry { flow, dir: None });
                    },
                    Square::Empty => {},
                }
            }
        }
    }

    /// Every line belongs to a path that starts at an endpoint of its flow.
    pub proof fn lemma_line_has_origin(self, rank: spec_fn(Point) -> nat, q: Point) -> (x: Point)
        requires
            self.wf(),
            self.linked(),
            self.ranked_by(rank),
            self.contains(q),
            self.at(q) is Line,
        ensures
            self.is_origin(x),
            self.at(x).flow() == self.at(q).flow(),
        decreases rank(q),
    {
        assert(self.linked_at(q));
        let from = self.at(q)->from;
        let u = q.step(from);
        assert(u.step(from.reverse()) == q);
        if self.at(u) is Line {
            self.lemma_line_has_origin(rank, u)
        } else {
            u
        }
    }

    /// Erasing the path that starts at the endpoint at `s` empties every
    /// line of its flow.
    pub proof fn lemma_flow_erased(self, rank: spec_fn(Point) -> nat, s: Point, q: Point)
        requires
            self.wf(),
            self.linked(),
            self.ranked_by(rank),
            self.single_pathed(),
            self.is_origin(s),
            self.contains(q),
            self.at(q) is Line,
            self.at(q).flow() == self.at(s).flow(),
        ensures
            self.restarted(s).at(q) is Empty,
        decreases rank(q),
    {
        let start = self.put(s, self.at(s).with_exit(None));
        self.lemma_put(s, self.at(s).with_exit(None));
        assert(self.linked_at(q));
        let from = self.at(q)->from;
        let u = q.step(from);
        assert(u.step(from.reverse()) == q);
        assert(start.at(q) == self.at(q));
        if self.at(u) is Line {
            self.lemma_flow_erased(rank, s, u);
            assert(start.at(u) == self.at(u));
            start.lemma_cleared_follows(self.at(s).exit(), s, u);
        } else {
            assert(self.is_origin(u));
            assert(u == s);
            start.lemma_cleared_first(from.reverse(), s);
        }
    }

    /// An endpoint and its partner are the only endpoints of their flow.
    pub proof fn lemma_pair(self, c: Point) -> (o: Point)
        requires
            self.paired(),
            self.contains(c),
            self.at(c) is Entry,
        ensures
            self.partner(c) == Some(o),
            self.is_partner(c, o),
            forall|x: Point|
                self.contains(x) && #[trigger] self.at(x) is Entry && self.at(x).flow() == self.at(
                    c,
                ).flow() ==> x == c || x == o,
    {
        assert(self.has_single_partner(c));
        let o = self.partner(c)->0;
        assert(self.is_first_partner(c, o));
        assert forall|x: Point|
            self.contains(x) && #[trigger] self.at(x) is Entry && self.at(x).flow() == self.at(
                c,
            ).flow() implies x == c || x == o by {
            if x != c {
                assert(self.is_partner(c, x));
            }
        }
        o
    }

    /// The link of the endpoint at `s`, if it has one, leads into a path
    /// that starts there or to the other endpoint, not to the end of a path.
    pub open spec fn starts_path(self, s: Point) -> bool {
        &&& self.contains(s)
        &&& self.at(s) is Entry
        &&& self.at(s).exit() matches Some(e) ==> (self.at(s.step(e)) matches Square::Line {
            from,
            ..
        } ==> from == e.reverse())
    }

    /// With the endpoint that a path starts at unlinked, the path is being
    /// erased.
    pub proof fn lemma_unlinked_start(self, s: Point)
        requires
            self.wf(),
            self.linked(),
            self.starts_path(s),
        ensures
            self.put(s, self.at(s).with_exit(None)).erasing(self.at(s).exit(), s),
    {
        let start = self.put(s, self.at(s).with_exit(None));
        self.lemma_put(s, self.at(s).with_exit(None));
        assert(self.linked_at(s));
        match self.at(s).exit() {
            None => {
                assert forall|q: Point| start.contains(q) implies #[trigger] start.linked_at(
                    q,
                ) by {
                    assert(self.linked_at(q));
                    if q != s {
                        start.lemma_linked_beside(self, q, s);
                    }
                }
            },
            Some(e) => {
                let w = s.step(e);
                assert(w.step(e.reverse()) == s);
                assert(start.at(w) == self.at(w));
                assert(self.linked_at(w));
                assert forall|q: Point| start.contains(q) && q != w implies #[trigger]
                    start.linked_at(q) by {
                    assert(self.linked_at(q));
                    if q != s {
                        start.lemma_linked_beside(self, q, s);
                    }
                }
                if self.at(w) is Line {
                    if self.at(w)->to is Some {
                        assert(w.step(self.at(w)->to->0) != s);
                    }
                    assert(start.forth_linked(w));
                }
            },
        }
    }

    /// With no flow active and the cursor on an endpoint, the flow's path
    /// has a start: an endpoint of the flow that the path starts at, if any
    /// of the flow has been drawn.
    pub proof fn lemma_path_start(self) -> (s: Point)
        requires
            self.consistent(),
            self.at(self.cursor) is Entry,
        ensures
            self.path_start() == Some(s),
            self.starts_path(s),
            self.at(s).flow() == self.at(self.cursor).flow(),
            self.is_origin(s) || self.undrawn(self.at(s).flow()),
    {
        let c = self.cursor;
        let o = self.lemma_pair(c);
        let rank = choose|rank: spec_fn(Point) -> nat| self.ranked_by(rank);
        assert(self.linked_at(c));
        assert(self.linked_at(o));
        let s = self.path_start()->0;
        if let Some(e) = self.at(s).exit() {
            let w = s.step(e);
            assert(w.step(e.reverse()) == s);
            if self.at(w) is Line && self.at(w)->from != e.reverse() {
                let y = self.lemma_line_has_origin(rank, w);
                assert(y == c || y == o);
            }
        }
        if !self.is_origin(s) {
            assert forall|p: Point| #[trigger] self.is_origin(p) implies self.at(p).flow()
                != self.at(s).flow() by {
                if self.at(p).flow() == self.at(s).flow() {
                    assert(p == c || p == o);
                    assert(self.linked_at(p));
                    let e = self.at(p).exit()->0;
                    let y = self.lemma_line_has_origin(rank, p.step(e));
                }
            }
        }
        s
    }

    /// Erasing from the start of a flow's path changes every cell of the
    /// flow: its lines are emptied and its endpoints unlinked.
    pub proof fn lemma_restart_erases(self, s: Point, x: Point)
        requires
            self.wf(),
            self.paired(),
            self.linked(),
            self.acyclic(),
            self.single_pathed(),
            self.starts_path(s),
            self.is_origin(s) || self.undrawn(self.at(s).flow()),
            self.contains(x),
            self.at(x).flow() == self.at(s).flow(),
        ensures
            erased(self.at(x), self.restarted(s).at(x)),
    {
        let rank = choose|rank: spec_fn(Point) -> nat| self.ranked_by(rank);
        let start = self.put(s, self.at(s).with_exit(None));
        let last = self.restarted(s);
        self.lemma_put(s, self.at(s).with_exit(None));
        start.lemma_cleared_fades(self.at(s).exit(), s);
        assert(faded(start.at(x), last.at(x)));
        if self.at(x) is Line {
            let y = self.lemma_line_has_origin(rank, x);
            self.lemma_flow_erased(rank, s, x);
        } else if x != s {
            if let Some(e) = self.at(x).exit() {
                let w = x.step(e);
                assert(self.linked_at(x));
                assert(w.step(e.reverse()) == x);
                let o = self.lemma_pair(s);
                match self.at(w) {
                    Square::Line { from, to, .. } => {
                        let y = self.lemma_line_has_origin(rank, w);
                        if from == e.reverse() {
                            assert(self.is_origin(x));
                        } else {
                            self.lemma_flow_erased(rank, s, w);
                            assert(start.at(w) == self.at(w));
                            start.lemma_cleared_follows(self.at(s).exit(), s, w);
                        }
                    },
                    Square::Entry { .. } => {
                        assert(w == s);
                        start.lemma_cleared_first(e.reverse(), s);
                    },
                    Square::Empty => {},
                }
            }
        }
    }

    /// Erasing a path changes cells of the path's flow only.
    pub proof fn lemma_cleared_within_flow(
        self,
        dir: Option<Direction>,
        p: Point,
        flow: Option<u32>,
    )
        requires
            self.erasing(dir, p),
            dir matches Some(d) ==> self.at(p.step(d)).flow() == flow,
        ensures
            forall|q: Point|
                self.contains(q) && self.at(q).flow() != flow ==> #[trigger] self.cleared(
                    dir,
                    p,
                ).at(q) == self.at(q),
        decreases self.lines(),
    {
        if let Some(d) = dir {
            let v = p.step(d);
            self.lemma_index_in_range(v);
            match self.at(v) {
                Square::Line { to, .. } => {
                    let next = self.put(v, Square::Empty);
                    self.lemma_put(v, Square::Empty);
                    lemma_line_count_update(self.cells, self.index_of(v), Square::Empty);
                    self.lemma_erasing_line(d, p);
                    if let Some(e) = to {
                        assert(v.step(e) != v);
                    }
                    next.lemma_cleared_within_flow(to, v, flow);
                    assert forall|q: Point|
                        self.contains(q) && self.at(q).flow() != flow implies #[trigger]
                        self.cleared(dir, p).at(q) == self.at(q) by {
                        assert(next.at(q) == self.at(q));
                        assert(next.cleared(to, v).at(q) == next.at(q));
                    }
                },
                Square::Entry { flow, .. } => {
                    self.lemma_put(v, Square::Entry { flow, dir: None });
                },
                Square::Empty => {},
            }
        }
    }

    /// Erasing from the start of a flow's path takes the flow off the grid
    /// and leaves every other flow as it was.
    pub proof fn lemma_restarted_without(self, s: Point)
        requires
            self.wf(),
            self.paired(),
            self.linked(),
            self.acyclic(),
            self.single_pathed(),
            self.starts_path(s),
            self.is_origin(s) || self.undrawn(self.at(s).flow()),
        ensures
            self.put(s, self.at(s).with_exit(None)).clearable(self.at(s).exit(), s),
            self.restarted(s) == self.without(self.at(s).flow()->0),
            self.restarted(s).linked(),
    {
        let flow = self.at(s).flow()->0;
        let start = self.put(s, self.at(s).with_exit(None));
        let last = self.restarted(s);
        let goal = self.without(flow);
        self.lemma_put(s, self.at(s).with_exit(None));
        self.lemma_unlinked_start(s);
        start.lemma_erasing(self.at(s).exit(), s);
        start.lemma_cleared_fades(self.at(s).exit(), s);
        assert(self.linked_at(s));
        start.lemma_cleared_within_flow(self.at(s).exit(), s, Some(flow));
        self.lemma_without(flow);
        assert forall|q: Point| last.contains(q) implies #[trigger] last.at(q) == goal.at(q) by {
            if self.at(q).flow() == Some(flow) {
                self.lemma_restart_erases(s, q);
            } else {
                assert(start.at(q) == self.at(q));
            }
        }
        last.lemma_same_cells(goal);
    }

    /// A consistent grid is consistent after the selection toggle. Where the
    /// toggle selects an endpoint, the flow's path has a start from which it
    /// can be erased, and erasing it from there is what the toggle does.
    pub proof fn lemma_toggle_consistent(self)
        requires
            self.consistent(),
        ensures
            self.toggled().consistent(),
            self.active is None && self.at(self.cursor) is Entry ==> {
                &&& self.path_start() matches Some(s)
                &&& self.contains(s)
                &&& self.at(s) is Entry
                &&& self.put(s, self.at(s).with_exit(None)).clearable(self.at(s).exit(), s)
                &&& self.restarted(s).with_active(self.at(self.cursor).flow()) == self.toggled()
                &&& self.at(self.cursor).exit() matches Some(d) ==> self.contains(
                    self.cursor.step(d),
                )
            },
    {
        let m = self.toggled();
        let c = self.cursor;
        assert(self.linked_at(c));
        if self.active is None && self.at(c) is Entry {
            let flow = self.at(c).flow()->0;
            let s = self.lemma_path_start();
            self.lemma_restarted_without(s);
            self.lemma_without(flow);
            let last = self.restarted(s);
            assert forall|q: Point| self.contains(q) implies faded(
                self.at(q),
                #[trigger] m.at(q),
            ) by {
                assert(m.at(q) == self.without(flow).at(q));
            }
            assert(self.fades_to(m));
            self.lemma_fading_keeps(m);
            assert forall|q: Point| m.contains(q) implies #[trigger] m.linked_at(q) by {
                assert(last.linked_at(q));
            }
            assert(m.at(c) == self.without(flow).at(c));
            assert forall|p: Point| #[trigger] m.is_origin(p) implies m.at(p).flow()
                != m.active by {
                assert(m.at(p) == self.without(flow).at(p));
            }
        } else {
            assert(self.same_entries(m));
            self.lemma_paired_by_entries(m);
            assert forall|p: Point| m.contains(p) implies #[trigger] m.linked_at(p) by {
                assert(self.linked_at(p));
            }
            self.lemma_acyclic_by_lines(m);
            assert forall|p: Point| #[trigger] m.is_origin(p) implies self.is_origin(p) by {}
        }
    }
}

} // verus!
