use flow_puzzle::Direction::{East, North, South, West};
use flow_puzzle::{apply_move, Board, Coord, Square};

fn shown(board: &Board) -> String {
    assert!(board.is_showable());
    String::from_utf8(board.render()).unwrap()
}

#[test]
fn a_fresh_level_is_framed() {
    let board = Board::from_text(b"A.A").unwrap();
    assert_eq!(
        shown(&board),
        "┌───────┐-\n│[A\x1b[0;37m] \x1b[0;37m A\x1b[0;37m │\n└───────┘\n"
    );
}

#[test]
fn the_active_flow_is_coloured() {
    let mut board = Board::from_text(b"A.A").unwrap();
    assert!(board.is_playable());
    board.toggle_selection();
    apply_move(&mut board, East);
    assert_eq!(
        shown(&board),
        "┌───────┐A\n│ \x1b[0;34mA\x1b[0;37m[\x1b[0;34m╴\x1b[0;37m]\x1b[0;34mA\x1b[0;37m │\n└───────┘\n"
    );
}

#[test]
fn a_finished_flow_is_drawn_through() {
    let mut board = Board::from_text(b"A.A").unwrap();
    assert!(board.is_playable());
    board.toggle_selection();
    apply_move(&mut board, East);
    apply_move(&mut board, East);
    assert_eq!(
        shown(&board),
        "┌───────┐-\n│ A\x1b[0;37m──\x1b[0;37m[A\x1b[0;37m]│\n└───────┘\n"
    );
}

#[test]
fn corners_turn_the_way_the_path_turns() {
    let mut board = Board::from_text(b"...\n.A.\n...\nA..").unwrap();
    assert!(board.is_playable());
    apply_move(&mut board, East);
    apply_move(&mut board, South);
    board.toggle_selection();
    for d in [North, East, South, South, West, West, South] {
        apply_move(&mut board, d);
    }
    assert_eq!(board.selected_square(), Coord { x: 0, y: 3 });
    assert_eq!(board.selected_flow(), None);
    let expected = format!(
        "┌───────┐-\n\
         │  {w} ┌{w}─┐{w} │\n\
         │  {w} A{w} │{w} │\n\
         │ ┌{w}──{w}─┘{w} │\n\
         │[A{w}] {w}  {w} │\n\
         └───────┘\n",
        w = "\x1b[0;37m"
    );
    assert_eq!(shown(&board), expected);
}

#[test]
fn open_ends_point_back_along_the_path() {
    let glyphs = [(North, "╷"), (East, "╴"), (South, "╵"), (West, "╶")];
    for (d, glyph) in glyphs {
        let mut board = Board::from_text(b"...\n.A.\n..A").unwrap();
        assert!(board.is_playable());
        apply_move(&mut board, East);
        apply_move(&mut board, South);
        board.toggle_selection();
        apply_move(&mut board, d);
        let picture = shown(&board);
        assert!(picture.contains(&format!("[\x1b[0;34m{}\x1b[0;37m", glyph)));
        assert!(picture.starts_with("┌───────┐A\n"));
    }
}

#[test]
fn an_unshowable_board_is_told_apart() {
    let far = Board::new(1, 2, vec![Square::Entry { flow: 26, dir: None }, Square::Empty]);
    assert!(!far.is_showable());
    let near = Board::new(1, 2, vec![Square::Entry { flow: 25, dir: None }, Square::Empty]);
    assert!(near.is_showable());
    assert_eq!(
        String::from_utf8(near.render()).unwrap(),
        "┌───┐-\n│[Z\x1b[0;37m]│\n│  \x1b[0;37m │\n└───┘\n"
    );
    let back = Board::new(
        1,
        1,
        vec![Square::Line { flow: 0, from: West, to: Some(West) }],
    );
    assert!(!back.is_showable());
    let ragged = Board::new(2, 2, vec![Square::Empty]);
    assert!(!ragged.is_showable());
}
