use flow_puzzle::{Board, Coord, Direction, Square};

const SAMPLE_LEVEL: &[u8] = b".....E\n......\n.DA...\n...B.D\n.B.EAC\n...C..";

#[test]
fn cells_are_read_and_written_in_row_major_order() {
    let mut board = Board::from_text(b"A..\n..A").unwrap();
    let line = Square::Line { flow: 0, from: Direction::West, to: None };
    board.set(Coord { x: 1, y: 0 }, line);
    assert_eq!(*board.get(Coord { x: 1, y: 0 }), line);
    assert_eq!(*board.cell(1), line);
    assert_eq!(*board.cell(0), Square::Entry { flow: 0, dir: None });
    assert_eq!(*board.cell(5), Square::Entry { flow: 0, dir: None });
    board.set(Coord { x: 0, y: 1 }, line);
    assert_eq!(*board.cell(3), line);
    assert_eq!(*board.get(Coord { x: 2, y: 1 }), Square::Entry { flow: 0, dir: None });
}

#[test]
fn a_cell_is_changed_through_its_reference() {
    let mut board = Board::from_text(b"A.A").unwrap();
    *board.get_mut(Coord { x: 1, y: 0 }) =
        Square::Line { flow: 0, from: Direction::West, to: Some(Direction::East) };
    assert_eq!(
        *board.get(Coord { x: 1, y: 0 }),
        Square::Line { flow: 0, from: Direction::West, to: Some(Direction::East) }
    );
    assert_eq!(*board.get(Coord { x: 0, y: 0 }), Square::Entry { flow: 0, dir: None });
    assert_eq!(*board.get(Coord { x: 2, y: 0 }), Square::Entry { flow: 0, dir: None });
}

#[test]
fn bounds_are_the_extent() {
    let board = Board::from_text(SAMPLE_LEVEL).unwrap();
    assert!(board.in_bounds(Coord { x: 0, y: 0 }));
    assert!(board.in_bounds(Coord { x: 5, y: 5 }));
    assert!(!board.in_bounds(Coord { x: 6, y: 0 }));
    assert!(!board.in_bounds(Coord { x: 0, y: 6 }));
    assert!(!board.in_bounds(Coord { x: -1, y: 0 }));
    assert!(!board.in_bounds(Coord { x: 0, y: -1 }));
}

#[test]
fn other_endpoints_are_found() {
    let board = Board::from_text(SAMPLE_LEVEL).unwrap();
    assert_eq!(board.get_other_entry(Coord { x: 2, y: 2 }), Some(Coord { x: 4, y: 4 }));
    assert_eq!(board.get_other_entry(Coord { x: 4, y: 4 }), Some(Coord { x: 2, y: 2 }));
    assert_eq!(board.get_other_entry(Coord { x: 5, y: 0 }), Some(Coord { x: 3, y: 4 }));
    assert_eq!(board.get_other_entry(Coord { x: 3, y: 5 }), Some(Coord { x: 5, y: 4 }));
    assert_eq!(board.get_other_entry(Coord { x: 1, y: 2 }), Some(Coord { x: 5, y: 3 }));
    assert_eq!(board.get_other_entry(Coord { x: 1, y: 4 }), Some(Coord { x: 3, y: 3 }));
}

#[test]
fn only_endpoints_have_other_endpoints() {
    let mut board = Board::from_text(b"A.A\n.B.").unwrap();
    assert_eq!(board.get_other_entry(Coord { x: 1, y: 0 }), None);
    assert_eq!(board.get_other_entry(Coord { x: 1, y: 1 }), None);
    board.set(Coord { x: 1, y: 0 }, Square::Line { flow: 0, from: Direction::West, to: None });
    assert_eq!(board.get_other_entry(Coord { x: 1, y: 0 }), None);
    assert_eq!(board.get_other_entry(Coord { x: 0, y: 0 }), Some(Coord { x: 2, y: 0 }));
}

#[test]
fn the_first_of_several_other_endpoints_is_found() {
    let board = Board::from_text(b"A.A\nA..").unwrap();
    assert_eq!(board.get_other_entry(Coord { x: 0, y: 0 }), Some(Coord { x: 2, y: 0 }));
    assert_eq!(board.get_other_entry(Coord { x: 2, y: 0 }), Some(Coord { x: 0, y: 0 }));
    assert_eq!(board.get_other_entry(Coord { x: 0, y: 1 }), Some(Coord { x: 0, y: 0 }));
    assert!(!board.is_paired_at(Coord { x: 0, y: 0 }));
}

#[test]
fn a_board_is_made_of_its_parts() {
    let cells = vec![
        Square::Entry { flow: 40, dir: None },
        Square::Empty,
        Square::Empty,
        Square::Entry { flow: 40, dir: None },
    ];
    let mut board = Board::new(2, 2, cells);
    assert_eq!(board.width(), 2);
    assert_eq!(board.height(), 2);
    assert_eq!(board.selected_square(), Coord { x: 0, y: 0 });
    assert_eq!(board.selected_flow(), None);
    assert!(board.is_playable());
    assert!(board.is_paired_at(Coord { x: 0, y: 0 }));
    board.set_selected_square(Coord { x: 1, y: 1 });
    assert_eq!(board.selected_square(), Coord { x: 1, y: 1 });
    board.set_selected_flow(Some(40));
    assert_eq!(board.selected_flow(), Some(40));
    assert!(!board.is_playable());
    let short = Board::new(2, 2, vec![Square::Empty]);
    assert!(!short.is_rectangular());
}
