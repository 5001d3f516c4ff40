use flow_puzzle::{Coord, Direction, Square};

#[test]
fn directions_have_unit_offsets() {
    assert_eq!(Direction::North.as_coord(), Coord { x: 0, y: -1 });
    assert_eq!(Direction::East.as_coord(), Coord { x: 1, y: 0 });
    assert_eq!(Direction::South.as_coord(), Coord { x: 0, y: 1 });
    assert_eq!(Direction::West.as_coord(), Coord { x: -1, y: 0 });
}

#[test]
fn directions_have_opposites() {
    assert_eq!(Direction::North.oposite(), Direction::South);
    assert_eq!(Direction::East.oposite(), Direction::West);
    assert_eq!(Direction::South.oposite(), Direction::North);
    assert_eq!(Direction::West.oposite(), Direction::East);
}

#[test]
fn opposite_of_opposite_is_the_direction() {
    for d in [Direction::North, Direction::East, Direction::South, Direction::West] {
        assert_eq!(d.oposite().oposite(), d);
        assert_eq!(d.as_coord() + d.oposite().as_coord(), Coord { x: 0, y: 0 });
    }
}

#[test]
fn coordinates_add_by_component() {
    assert_eq!(Coord { x: 2, y: 3 } + Coord { x: 5, y: -4 }, Coord { x: 7, y: -1 });
    let mut c = Coord { x: 1, y: 1 };
    c += Direction::West.as_coord();
    assert_eq!(c, Coord { x: 0, y: 1 });
    c += Coord { x: 10, y: 20 };
    assert_eq!(c, Coord { x: 10, y: 21 });
}

#[test]
fn coordinates_come_from_pairs() {
    assert_eq!(Coord::from((3, -7)), Coord { x: 3, y: -7 });
    let c: Coord = (4, 5).into();
    assert_eq!(c, Coord { x: 4, y: 5 });
}

#[test]
fn squares_tell_their_kind_and_flow() {
    let empty = Square::Empty;
    let line = Square::Line { flow: 7, from: Direction::West, to: Some(Direction::North) };
    let head = Square::Line { flow: 7, from: Direction::West, to: None };
    let entry = Square::Entry { flow: 2, dir: Some(Direction::East) };
    assert!(empty.is_empty() && !empty.is_line() && !empty.is_entry());
    assert!(!line.is_empty() && line.is_line() && !line.is_entry());
    assert!(!entry.is_empty() && !entry.is_line() && entry.is_entry());
    assert_eq!(empty.value(), None);
    assert_eq!(line.value(), Some(7));
    assert_eq!(entry.value(), Some(2));
    assert_eq!(empty.exit_dir(), None);
    assert_eq!(line.exit_dir(), Some(Direction::North));
    assert_eq!(head.exit_dir(), None);
    assert_eq!(entry.exit_dir(), Some(Direction::East));
}

#[test]
fn squares_are_relinked() {
    let line = Square::Line { flow: 7, from: Direction::West, to: Some(Direction::North) };
    let entry = Square::Entry { flow: 2, dir: None };
    assert_eq!(line.linked(None), Square::Line { flow: 7, from: Direction::West, to: None });
    assert_eq!(
        entry.linked(Some(Direction::South)),
        Square::Entry { flow: 2, dir: Some(Direction::South) }
    );
    assert_eq!(Square::Empty.linked(Some(Direction::South)), Square::Empty);
    assert!(entry.is_fresh());
    assert!(Square::Empty.is_fresh());
    assert!(!line.is_fresh());
    assert!(!entry.linked(Some(Direction::South)).is_fresh());
}
