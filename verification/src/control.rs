//! The puzzle controller: the selection toggle, moves that respect the
//! grid's extent, and the win check.

use vstd::prelude::*;
use crate::board::{Board, Grid};
use crate::path::move_line;
use crate::square::Square;
use crate::topology::{Coord, Direction, Point};

verus! {

/// What the player can ask for.
#[derive(PartialEq, Eq, Structural, Copy, Clone, Debug)]
pub enum Event {
    /// A step of the cursor.
    Move(Direction),
    /// The selection toggle.
    Select,
    /// The end of the session.
    Quit,
}

/// How the session goes on after an event.
#[derive(PartialEq, Eq, Structural, Copy, Clone, Debug)]
pub enum Outcome {
    /// The puzzle is not solved yet.
    Playing,
    /// Every cell is covered and every flow finished.
    Won,
    /// The player has left.
    Quit,
}

/// The event that the key with code `key` stands for: the arrow keys and
/// `w`, `a`, `s`, `d` move, space and return select, control-C quits, and
/// any other key stands for nothing.
pub open spec fn event_of(key: u8) -> Option<Event> {
    if key == 3 {
        Some(Event::Quit)
    } else if key == 77 || key == 100 {
        Some(Event::Move(Direction::East))
    } else if key == 75 || key == 97 {
        Some(Event::Move(Direction::West))
    } else if key == 80 || key == 115 {
        Some(Event::Move(Direction::South))
    } else if key == 72 || key == 119 {
        Some(Event::Move(Direction::North))
    } else if key == 32 || key == 13 {
        Some(Event::Select)
    } else {
        None
    }
}

/// The event that the key with code `key` stands for, if any.
pub fn decode_key(key: u8) -> (e: Option<Event>)
    ensures
        e == event_of(key),
{
    match key {
        3 => Some(Event::Quit),
        77 | 100 => Some(Event::Move(Direction::East)),
        75 | 97 => Some(Event::Move(Direction::West)),
        80 | 115 => Some(Event::Move(Direction::South)),
        72 | 119 => Some(Event::Move(Direction::North)),
        32 | 13 => Some(Event::Select),
        _ => None,
    }
}

impl Grid {
    /// The grid after the event `e`.
    pub open spec fn after(self, e: Event) -> Grid {
        match e {
            Event::Move(d) => self.stepped(d),
            Event::Select => self.toggled(),
            Event::Quit => self,
        }
    }

    /// The puzzle is solved: no cell is empty and every endpoint is linked.
    pub open spec fn solved(self) -> bool {
        forall|i: int|
            0 <= i < self.cells.len() ==> {
                &&& !(#[trigger] self.cells[i] is Empty)
                &&& self.cells[i] is Entry ==> self.cells[i].exit() is Some
            }
    }

    /// The grid after a move in direction `d` where the target lies within
    /// the grid, the grid itself where it does not.
    pub open spec fn stepped(self, d: Direction) -> Grid {
        if self.contains(self.target(d)) {
            self.moved(d)
        } else {
            self
        }
    }

    /// The grid is a level before the first move: a rectangle that contains
    /// the cursor, with no flow active, no line drawn, no endpoint linked,
    /// and two endpoints of every flow.
    pub open spec fn pristine(self) -> bool {
        &&& self.wf()
        &&& self.contains(self.cursor)
        &&& self.active is None
        &&& forall|i: int| 0 <= i < self.cells.len() ==> (#[trigger] self.cells[i]).fresh()
        &&& self.paired()
    }

    /// A level before the first move is consistent.
    pub proof fn lemma_pristine_consistent(self)
        requires
            self.pristine(),
        ensures
            self.consistent(),
    {
        assert forall|p: Point| self.contains(p) implies self.at(p).fresh() by {
            self.lemma_index_in_range(p);
        }
        assert forall|p: Point| self.contains(p) implies #[trigger] self.linked_at(p) by {
            assert(self.at(p).fresh());
        }
        let rank = |p: Point| 0nat;
        assert(self.ranked_by(rank));
        assert forall|p: Point| !#[trigger] self.is_origin(p) by {
            if self.contains(p) {
                assert(self.at(p).fresh());
            }
        }
    }

    /// The endpoint of the flow under the cursor that the flow's path starts
    /// at, or would start at: the cursor's own cell where its link leads
    /// into the path or to the other endpoint, else the other endpoint.
    pub open spec fn path_start(self) -> Option<Point> {
        match self.at(self.cursor).exit() {
            Some(d) => {
                let next = self.at(self.cursor.step(d));
                if next is Line && next->from != d.reverse() {
                    self.partner(self.cursor)
                } else {
                    Some(self.cursor)
                }
            },
            None => self.partner(self.cursor),
        }
    }

    /// No flow is active and the cursor is on an endpoint: the selection
    /// toggle selects the endpoint's flow.
    pub open spec fn selects_entry(self) -> bool {
        self.active is None && self.at(self.cursor) is Entry
    }

    /// The grid after the selection toggle. An active flow is put down. With
    /// none active, an endpoint under the cursor has its flow taken off the
    /// grid and made active, the open end of a path under the cursor makes
    /// its flow active, and any other cell changes nothing.
    pub open spec fn toggled(self) -> Grid {
        if self.active is Some {
            self.with_active(None)
        } else {
            match self.at(self.cursor) {
                Square::Entry { flow, .. } => {
                    self.without(flow).with_active(Some(flow))
                },
                Square::Line { flow, to: None, .. } => self.with_active(Some(flow)),
                _ => self,
            }
        }
    }
}

impl Board {
    /// Whether the puzzle is solved: no cell is empty and every endpoint is
    /// linked.
    pub fn is_solved(&self) -> (b: bool)
        ensures
            b == self@.solved(),
    {
        let n = self.cell_count();
        let mut i: usize = 0;
        while i < n
            invariant
                n == self@.cells.len(),
                0 <= i <= n,
                forall|j: int|
                    0 <= j < i ==> {
                        &&& !(#[trigger] self@.cells[j] is Empty)
                        &&& self@.cells[j] is Entry ==> self@.cells[j].exit() is Some
                    },
            decreases n - i,
        {
            match self.cell(i) {
                Square::Empty => {
                    return false;
                },
                Square::Entry { dir: None, .. } => {
                    return false;
                },
                _ => {},
            }
            i += 1;
        }
        true
    }

    /// The selection toggle. An active flow is put down, its path left as it
    /// is. With none active, an endpoint under the cursor has its flow erased
    /// and made active, the open end of a path under the cursor makes its
    /// flow active, and any other cell changes nothing.
    pub fn toggle_selection(&mut self)
        requires
            old(self)@.consistent(),
        ensures
            final(self)@ == old(self)@.toggled(),
            final(self)@.consistent(),
            old(self)@.selects_entry() ==> forall|q: Point|
                old(self)@.contains(q) ==> #[trigger] final(self)@.at(q) == old(self)@.at(
                    q,
                ).without(old(self)@.at(old(self)@.cursor).flow()->0),
    {
        proof {
            self@.lemma_toggle_consistent();
        }
        if self.selected_flow().is_some() {
            self.set_selected_flow(None);
            return ;
        }
        let here = self.selected_square();
        let under = *self.get(here);
        match under {
            Square::Entry { flow, dir } => {
                let start = match dir {
                    Some(d) => {
                        let next = *self.get(here + d.as_coord());
                        match next {
                            Square::Line { from, .. } => {
                                if from != d.oposite() {
                                    self.get_other_entry(here).unwrap()
                                } else {
                                    here
                                }
                            },
                            _ => here,
                        }
                    },
                    None => self.get_other_entry(here).unwrap(),
                };
                let first = *self.get(start);
                self.set(start, first.linked(None));
                self.clear_line(first.exit_dir(), start);
                self.set_selected_flow(Some(flow));
                proof {
                    old(self)@.lemma_without(flow);
                    assert forall|q: Point| old(self)@.contains(q) implies #[trigger] self@.at(q)
                        == old(self)@.at(q).without(flow) by {
                        assert(self@.at(q) == old(self)@.without(flow).at(q));
                    }
                }
            },
            Square::Line { flow, to: None, .. } => {
                self.set_selected_flow(Some(flow));
            },
            _ => {},
        }
    }

    /// Whether the endpoint at `c` has exactly one partner.
    pub fn is_paired_at(&self, c: Coord) -> (b: bool)
        requires
            self@.wf(),
            self@.contains(c@),
            self@.at(c@) is Entry,
        ensures
            b == self@.has_single_partner(c@),
    {
        let flow = self.get(c).value();
        let other = match self.get_other_entry(c) {
            Some(o) => o,
            None => {
                return false;
            },
        };
        let mut y: usize = 0;
        while y < self.height()
            invariant
                self@.wf(),
                self@.partner(c@) == Some(other@),
                self@.at(c@) is Entry,
                self@.at(c@).flow() == flow,
                y <= self@.height,
                forall|q: Point| #[trigger] self@.is_partner(c@, q) && q.y < y ==> q == other@,
            decreases self@.height - y,
        {
            let mut x: usize = 0;
            while x < self.width()
                invariant
                    self@.wf(),
                    self@.partner(c@) == Some(other@),
                    self@.at(c@) is Entry,
                    self@.at(c@).flow() == flow,
                    y < self@.height,
                    x <= self@.width,
                    forall|q: Point| #[trigger]
                        self@.is_partner(c@, q) && (q.y < y || (q.y == y && q.x < x)) ==> q
                            == other@,
                decreases self@.width - x,
            {
                let q = Coord { x: x as isize, y: y as isize };
                if q != c && q != other && self.get(q).is_entry() && self.get(q).value() == flow {
                    assert(self@.is_partner(c@, q@));
                    return false;
                }
                x += 1;
            }
            y += 1;
        }
        true
    }

    /// Whether the board is a level that play can start on: a rectangle
    /// that contains the cursor, with no flow active, no line drawn, no
    /// endpoint linked, and two endpoints of every flow.
    pub fn is_playable(&self) -> (b: bool)
        ensures
            b == self@.pristine(),
            b ==> self@.consistent(),
    {
        if !self.is_rectangular() || !self.in_bounds(self.selected_square())
            || self.selected_flow().is_some() {
            return false;
        }
        let n = self.cell_count();
        let mut i: usize = 0;
        while i < n
            invariant
                n == self@.cells.len(),
                0 <= i <= n,
                forall|j: int| 0 <= j < i ==> (#[trigger] self@.cells[j]).fresh(),
            decreases n - i,
        {
            if !self.cell(i).is_fresh() {
                return false;
            }
            i += 1;
        }
        let mut y: usize = 0;
        while y < self.height()
            invariant
                self@.wf(),
                y <= self@.height,
                forall|p: Point|
                    self@.contains(p) && self@.at(p) is Entry && p.y < y ==> #[trigger]
                        self@.has_single_partner(p),
            decreases self@.height - y,
        {
            let mut x: usize = 0;
            while x < self.width()
                invariant
                    self@.wf(),
                    y < self@.height,
                    x <= self@.width,
                    forall|p: Point|
                        self@.contains(p) && self@.at(p) is Entry && (p.y < y || (p.y == y && p.x
                            < x)) ==> #[trigger] self@.has_single_partner(p),
                decreases self@.width - x,
            {
                let c = Coord { x: x as isize, y: y as isize };
                if self.get(c).is_entry() && !self.is_paired_at(c) {
                    return false;
                }
                x += 1;
            }
            y += 1;
        }
        proof {
            self@.lemma_pristine_consistent();
        }
        true
    }
}

/// Moves the cursor one step in direction `dir` if that stays within the
/// grid, as `move_line` does; a move that would leave the grid changes
/// nothing.
pub fn apply_move(board: &mut Board, dir: Direction)
    requires
        old(board)@.consistent(),
    ensures
        final(board)@ == old(board)@.stepped(dir),
        final(board)@.consistent(),
{
    let there = board.selected_square() + dir.as_coord();
    if board.in_bounds(there) {
        proof {
            board@.lemma_move_consistent(dir);
        }
        move_line(board, dir);
    }
}

/// One turn of the game: applies the event to the board and says how the
/// session goes on. A move or a selection that solves the puzzle wins.
pub fn step(board: &mut Board, event: Event) -> (outcome: Outcome)
    requires
        old(board)@.consistent(),
    ensures
        final(board)@ == old(board)@.after(event),
        final(board)@.consistent(),
        outcome == if event is Quit {
            Outcome::Quit
        } else if final(board)@.solved() {
            Outcome::Won
        } else {
            Outcome::Playing
        },
{
    match event {
        Event::Quit => {
            return Outcome::Quit;
        },
        Event::Move(dir) => apply_move(board, dir),
        Event::Select => board.toggle_selection(),
    }
    if board.is_solved() {
        Outcome::Won
    } else {
        Outcome::Playing
    }
}

} // verus!
