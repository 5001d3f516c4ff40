use flow_puzzle::{Board, Coord, MalformedLevel, Square};

const SAMPLE: &[u8] = b".....E\n......\n.DA...\n...B.D\n.B.EAC\n...C..";

#[test]
fn sample_level_is_six_by_six() {
    let board = Board::from_text(SAMPLE).unwrap();
    assert_eq!(board.width(), 6);
    assert_eq!(board.height(), 6);
    assert_eq!(board.cell_count(), 36);
    assert!(board.is_rectangular());
    assert!(board.is_playable());
    assert_eq!(board.selected_square(), Coord { x: 0, y: 0 });
    assert_eq!(board.selected_flow(), None);
}

#[test]
fn sample_level_has_five_flows_each_twice() {
    let board = Board::from_text(SAMPLE).unwrap();
    let mut seen = [0usize; 26];
    for i in 0..board.cell_count() {
        match *board.cell(i) {
            Square::Entry { flow, dir } => {
                assert_eq!(dir, None);
                seen[flow as usize] += 1;
            }
            Square::Empty => {}
            Square::Line { .. } => panic!("a fresh level holds no line"),
        }
    }
    for flow in 0..5 {
        assert_eq!(seen[flow], 2);
    }
    for flow in 5..26 {
        assert_eq!(seen[flow], 0);
    }
}

#[test]
fn sample_level_cells_are_where_the_text_has_them() {
    let board = Board::from_text(SAMPLE).unwrap();
    assert_eq!(*board.get(Coord { x: 5, y: 0 }), Square::Entry { flow: 4, dir: None });
    assert_eq!(*board.get(Coord { x: 1, y: 2 }), Square::Entry { flow: 3, dir: None });
    assert_eq!(*board.get(Coord { x: 2, y: 2 }), Square::Entry { flow: 0, dir: None });
    assert_eq!(*board.get(Coord { x: 3, y: 3 }), Square::Entry { flow: 1, dir: None });
    assert_eq!(*board.get(Coord { x: 5, y: 4 }), Square::Entry { flow: 2, dir: None });
    assert_eq!(*board.get(Coord { x: 0, y: 0 }), Square::Empty);
    assert_eq!(*board.get(Coord { x: 5, y: 5 }), Square::Empty);
}

#[test]
fn unknown_byte_is_refused() {
    assert_eq!(Board::from_text(b"..a").err(), Some(MalformedLevel));
    assert_eq!(Board::from_text(b"A B").err(), Some(MalformedLevel));
    assert_eq!(Board::from_text(b"..\n.#").err(), Some(MalformedLevel));
    assert_eq!(Board::from_text(b"..\t").err(), Some(MalformedLevel));
    assert_eq!(Board::from_text(b"@").err(), Some(MalformedLevel));
    assert_eq!(Board::from_text(b"[").err(), Some(MalformedLevel));
}

#[test]
fn every_upper_case_letter_is_an_endpoint() {
    let board = Board::from_text(b"AZ").unwrap();
    assert_eq!(*board.cell(0), Square::Entry { flow: 0, dir: None });
    assert_eq!(*board.cell(1), Square::Entry { flow: 25, dir: None });
}

#[test]
fn trailing_line_break_adds_no_row() {
    let with = Board::from_text(b"A.\n.A\n").unwrap();
    let without = Board::from_text(b"A.\n.A").unwrap();
    assert_eq!(with.height(), 2);
    assert_eq!(without.height(), 2);
    assert_eq!(with.width(), 2);
    assert_eq!(with.cell_count(), 4);
    assert!(with.is_rectangular());
}

#[test]
fn carriage_return_is_refused() {
    assert_eq!(Board::from_text(b"A\rA").err(), Some(MalformedLevel));
    assert_eq!(Board::from_text(b"A.\r\n.A\r\n").err(), Some(MalformedLevel));
    assert_eq!(Board::from_text(b"\r").err(), Some(MalformedLevel));
    assert!(Board::from_text(b"A.\n.A\n").is_ok());
}

#[test]
fn width_is_taken_from_the_first_row() {
    let board = Board::from_text(b"A..\n.A").unwrap();
    assert_eq!(board.width(), 3);
    assert_eq!(board.height(), 2);
    assert_eq!(board.cell_count(), 5);
    assert!(!board.is_rectangular());
    assert!(!board.is_playable());
}

#[test]
fn empty_text_is_one_row_of_nothing() {
    let board = Board::from_text(b"").unwrap();
    assert_eq!(board.width(), 0);
    assert_eq!(board.height(), 1);
    assert_eq!(board.cell_count(), 0);
    assert!(board.is_rectangular());
    assert!(!board.is_playable());
}

#[test]
fn blank_lines_count_as_rows() {
    let board = Board::from_text(b"\n\n").unwrap();
    assert_eq!(board.width(), 0);
    assert_eq!(board.height(), 2);
    assert_eq!(board.cell_count(), 0);
}

#[test]
fn unpaired_level_loads_but_cannot_be_played() {
    let one = Board::from_text(b"A..").unwrap();
    assert!(one.is_rectangular());
    assert!(!one.is_playable());
    let three = Board::from_text(b"AAA").unwrap();
    assert!(!three.is_playable());
    let two = Board::from_text(b"A.A").unwrap();
    assert!(two.is_playable());
}
