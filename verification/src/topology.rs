//! Directions and coordinates.

use vstd::prelude::*;
use vstd::std_specs::convert::FromSpecImpl;
use vstd::std_specs::ops::AddSpecImpl;

verus! {

/// A position in the plane with unbounded integers: what a `Coord` stands
/// for in contracts.
pub struct Point {
    pub x: int,
    pub y: int,
}

impl Point {
    /// The position one step away in direction `d`.
    pub open spec fn step(self, d: Direction) -> Point {
        Point { x: self.x + d.dx(), y: self.y + d.dy() }
    }
}

/// A grid coordinate: `x` grows to the east, `y` to the south.
#[derive(PartialEq, Eq, Structural, Copy, Clone, Debug)]
pub struct Coord {
    pub x: isize,
    pub y: isize,
}

impl View for Coord {
    type V = Point;

    open spec fn view(&self) -> Point {
        Point { x: self.x as int, y: self.y as int }
    }
}

impl Coord {
    /// Whether the sum of `self` and `rhs` is representable.
    pub open spec fn can_add(self, rhs: Coord) -> bool {
        &&& isize::MIN <= self.x + rhs.x <= isize::MAX
        &&& isize::MIN <= self.y + rhs.y <= isize::MAX
    }
}

impl AddSpecImpl for Coord {
    open spec fn obeys_add_spec() -> bool {
        true
    }

    open spec fn add_req(self, rhs: Coord) -> bool {
        self.can_add(rhs)
    }

    open spec fn add_spec(self, rhs: Coord) -> Coord {
        Coord { x: (self.x + rhs.x) as isize, y: (self.y + rhs.y) as isize }
    }
}

impl core::ops::Add for Coord {
    type Output = Coord;

    fn add(self, rhs: Coord) -> (sum: Coord)
        ensures
            sum@ == (Point { x: self.x + rhs.x, y: self.y + rhs.y }),
    {
        Coord { x: self.x + rhs.x, y: self.y + rhs.y }
    }
}

impl core::ops::AddAssign for Coord {
    fn add_assign(&mut self, rhs: Coord)
        requires
            old(self).can_add(rhs),
        ensures
            final(self)@ == (Point { x: old(self).x + rhs.x, y: old(self).y + rhs.y }),
    {
        self.x = self.x + rhs.x;
        self.y = self.y + rhs.y;
    }
}

impl FromSpecImpl<(isize, isize)> for Coord {
    open spec fn obeys_from_spec() -> bool {
        true
    }

    open spec fn from_spec(value: (isize, isize)) -> Coord {
        Coord { x: value.0, y: value.1 }
    }
}

impl From<(isize, isize)> for Coord {
    fn from(value: (isize, isize)) -> (c: Coord) {
        Coord { x: value.0, y: value.1 }
    }
}

/// One of the four grid directions.
#[derive(PartialEq, Eq, Structural, Copy, Clone, Debug)]
pub enum Direction {
    North,
    East,
    South,
    West,
}

impl Direction {
    /// Horizontal component of the unit step in this direction.
    pub open spec fn dx(self) -> int {
        match self {
            Direction::North => 0,
            Direction::East => 1,
            Direction::South => 0,
            Direction::West => -1,
        }
    }

    /// Vertical component of the unit step in this direction.
    pub open spec fn dy(self) -> int {
        match self {
            Direction::North => -1,
            Direction::East => 0,
            Direction::South => 1,
            Direction::West => 0,
        }
    }

    /// The direction that points the other way.
    pub open spec fn reverse(self) -> Direction {
        match self {
            Direction::North => Direction::South,
            Direction::East => Direction::West,
            Direction::South => Direction::North,
            Direction::West => Direction::East,
        }
    }

    /// The unit offset of this direction.
    pub fn as_coord(self) -> (c: Coord)
        ensures
            c@ == (Point { x: self.dx(), y: self.dy() }),
    {
        match self {
            Direction::North => Coord { x: 0, y: -1 },
            Direction::East => Coord { x: 1, y: 0 },
            Direction::South => Coord { x: 0, y: 1 },
            Direction::West => Coord { x: -1, y: 0 },
        }
    }

    /// The opposite direction.
    pub fn oposite(self) -> (d: Direction)
        ensures
            d == self.reverse(),
    {
        match self {
            Direction::North => Direction::South,
            Direction::East => Direction::West,
            Direction::South => Direction::North,
            Direction::West => Direction::East,
        }
    }
}

} // verus!
