//! The state of one grid cell.

use vstd::prelude::*;
use crate::topology::Direction;

verus! {

/// What one grid cell holds.
#[derive(PartialEq, Eq, Structural, Copy, Clone, Debug)]
pub enum Square {
    /// No flow passes through the cell.
    Empty,
    /// An interior cell of the path of `flow`. The path arrived from the
    /// neighbour in direction `from` and goes on to the neighbour in direction
    /// `to`; a line without `to` is the open end of its path.
    Line { flow: u32, from: Direction, to: Option<Direction> },
    /// One of the two endpoints of `flow`. `dir` points to the neighbour that
    /// the endpoint is linked with, if any.
    Entry { flow: u32, dir: Option<Direction> },
}

impl Square {
    /// The flow that the cell belongs to.
    pub open spec fn flow(self) -> Option<u32> {
        match self {
            Square::Empty => None,
            Square::Line { flow, .. } => Some(flow),
            Square::Entry { flow, .. } => Some(flow),
        }
    }

    /// The direction of the cell's outgoing link: `to` of a line, `dir` of an
    /// endpoint.
    pub open spec fn exit(self) -> Option<Direction> {
        match self {
            Square::Empty => None,
            Square::Line { to, .. } => to,
            Square::Entry { dir, .. } => dir,
        }
    }

    /// The same cell with its outgoing link replaced by `exit`. An empty cell
    /// has no link and stays as it is.
    pub open spec fn with_exit(self, exit: Option<Direction>) -> Square {
        match self {
            Square::Empty => Square::Empty,
            Square::Line { flow, from, .. } => Square::Line { flow, from, to: exit },
            Square::Entry { flow, .. } => Square::Entry { flow, dir: exit },
        }
    }

    /// The cell with `flow` taken off the grid: a line of `flow` is empty, an
    /// endpoint of `flow` has no link, any other cell is as it was.
    pub open spec fn without(self, flow: u32) -> Square {
        match self {
            Square::Empty => Square::Empty,
            Square::Line { flow: f, .. } => if f == flow {
                Square::Empty
            } else {
                self
            },
            Square::Entry { flow: f, .. } => if f == flow {
                Square::Entry { flow: f, dir: None }
            } else {
                self
            },
        }
    }

    /// The cell is as a level starts out with it: empty, or an endpoint
    /// without a link.
    pub open spec fn fresh(self) -> bool {
        !(self is Line) && self.exit() is None
    }

    /// Whether the cell is as a level starts out with it: empty, or an
    /// endpoint without a link.
    pub fn is_fresh(&self) -> (b: bool)
        ensures
            b == self.fresh(),
    {
        match self {
            Square::Empty => true,
            Square::Line { .. } => false,
            Square::Entry { dir, .. } => dir.is_none(),
        }
    }

    /// The flow id of a line or an endpoint, `None` for an empty cell.
    pub fn value(&self) -> (v: Option<u32>)
        ensures
            v == self.flow(),
    {
        match self {
            Square::Empty => None,
            Square::Line { flow, .. } => Some(*flow),
            Square::Entry { flow, .. } => Some(*flow),
        }
    }

    /// The outgoing link of a line or an endpoint, `None` for an empty cell.
    pub fn exit_dir(&self) -> (e: Option<Direction>)
        ensures
            e == self.exit(),
    {
        match self {
            Square::Empty => None,
            Square::Line { to, .. } => *to,
            Square::Entry { dir, .. } => *dir,
        }
    }

    /// The same cell with its outgoing link replaced by `exit`.
    pub fn linked(self, exit: Option<Direction>) -> (s: Square)
        ensures
            s == self.with_exit(exit),
    {
        match self {
            Square::Empty => Square::Empty,
            Square::Line { flow, from, .. } => Square::Line { flow, from, to: exit },
            Square::Entry { flow, .. } => Square::Entry { flow, dir: exit },
        }
    }

    /// Whether no flow passes through the cell.
    pub fn is_empty(&self) -> (b: bool)
        ensures
            b == (*self is Empty),
    {
        match self {
            Square::Empty => true,
            _ => false,
        }
    }

    /// Whether the cell is an interior cell of a path.
    pub fn is_line(&self) -> (b: bool)
        ensures
            b == (*self is Line),
    {
        match self {
            Square::Line { .. } => true,
            _ => false,
        }
    }

    /// Whether the cell is an endpoint of a flow.
    pub fn is_entry(&self) -> (b: bool)
        ensures
            b == (*self is Entry),
    {
        match self {
            Square::Entry { .. } => true,
            _ => false,
        }
    }
}

} // verus!
