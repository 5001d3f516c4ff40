use flow_puzzle::Direction::{East, North, South, West};
use flow_puzzle::{apply_move, move_line, Board, Coord, Direction, Square};

const LEVEL: &[u8] = b".....E\n......\n.DA...\n...B.D\n.B.EAC\n...C..";

fn fresh_board() -> Board {
    let board = Board::from_text(LEVEL).unwrap();
    assert!(board.is_playable());
    board
}

fn snapshot(board: &Board) -> (Vec<Square>, Coord, Option<u32>) {
    let cells = (0..board.cell_count()).map(|i| *board.cell(i)).collect();
    (cells, board.selected_square(), board.selected_flow())
}

fn walk_to(board: &mut Board, to: Coord) {
    assert_eq!(board.selected_flow(), None);
    while board.selected_square().x < to.x {
        apply_move(board, East);
    }
    while board.selected_square().x > to.x {
        apply_move(board, West);
    }
    while board.selected_square().y < to.y {
        apply_move(board, South);
    }
    while board.selected_square().y > to.y {
        apply_move(board, North);
    }
    assert_eq!(board.selected_square(), to);
}

fn draw(board: &mut Board, moves: &[Direction]) {
    for d in moves {
        apply_move(board, *d);
    }
}

fn count_lines(board: &Board) -> usize {
    (0..board.cell_count()).filter(|i| board.cell(*i).is_line()).count()
}

#[test]
fn cursor_moves_alone_without_an_active_flow() {
    let mut board = fresh_board();
    let before = snapshot(&board);
    move_line(&mut board, East);
    assert_eq!(board.selected_square(), Coord { x: 1, y: 0 });
    move_line(&mut board, South);
    assert_eq!(board.selected_square(), Coord { x: 1, y: 1 });
    move_line(&mut board, South);
    assert_eq!(board.selected_square(), Coord { x: 1, y: 2 });
    move_line(&mut board, West);
    assert_eq!(board.selected_square(), Coord { x: 0, y: 2 });
    move_line(&mut board, North);
    assert_eq!(board.selected_square(), Coord { x: 0, y: 1 });
    assert_eq!(snapshot(&board).0, before.0);
    assert_eq!(board.selected_flow(), None);
}

#[test]
fn moves_off_the_grid_are_ignored() {
    let mut board = fresh_board();
    let before = snapshot(&board);
    apply_move(&mut board, North);
    assert_eq!(snapshot(&board), before);
    apply_move(&mut board, West);
    assert_eq!(snapshot(&board), before);
    walk_to(&mut board, Coord { x: 5, y: 5 });
    apply_move(&mut board, South);
    apply_move(&mut board, East);
    assert_eq!(board.selected_square(), Coord { x: 5, y: 5 });
    assert_eq!(snapshot(&board).0, before.0);
}

#[test]
fn drawing_off_the_grid_is_ignored() {
    let mut board = fresh_board();
    walk_to(&mut board, Coord { x: 5, y: 0 });
    board.toggle_selection();
    let before = snapshot(&board);
    apply_move(&mut board, North);
    assert_eq!(snapshot(&board), before);
    apply_move(&mut board, East);
    assert_eq!(snapshot(&board), before);
    apply_move(&mut board, South);
    assert_eq!(board.selected_square(), Coord { x: 5, y: 1 });
    assert_eq!(*board.get(Coord { x: 5, y: 1 }), Square::Line { flow: 4, from: North, to: None });
}

#[test]
fn a_move_onto_an_empty_cell_draws() {
    let mut board = fresh_board();
    walk_to(&mut board, Coord { x: 2, y: 2 });
    board.toggle_selection();
    move_line(&mut board, East);
    assert_eq!(board.selected_square(), Coord { x: 3, y: 2 });
    assert_eq!(board.selected_flow(), Some(0));
    assert_eq!(*board.get(Coord { x: 2, y: 2 }), Square::Entry { flow: 0, dir: Some(East) });
    assert_eq!(*board.get(Coord { x: 3, y: 2 }), Square::Line { flow: 0, from: West, to: None });
    assert_eq!(count_lines(&board), 1);
    assert!(board.is_showable());
}

#[test]
fn a_second_move_links_the_line_behind() {
    let mut board = fresh_board();
    walk_to(&mut board, Coord { x: 2, y: 2 });
    board.toggle_selection();
    move_line(&mut board, East);
    move_line(&mut board, North);
    assert_eq!(board.selected_square(), Coord { x: 3, y: 1 });
    assert_eq!(
        *board.get(Coord { x: 3, y: 2 }),
        Square::Line { flow: 0, from: West, to: Some(North) }
    );
    assert_eq!(*board.get(Coord { x: 3, y: 1 }), Square::Line { flow: 0, from: South, to: None });
    assert_eq!(count_lines(&board), 2);
}

#[test]
fn drawing_and_taking_back_restores_the_grid() {
    let mut board = fresh_board();
    walk_to(&mut board, Coord { x: 2, y: 2 });
    board.toggle_selection();
    let at_endpoint = snapshot(&board);
    move_line(&mut board, East);
    assert_eq!(count_lines(&board), 1);
    let one_drawn = snapshot(&board);
    move_line(&mut board, East);
    assert_eq!(count_lines(&board), 2);
    move_line(&mut board, West);
    assert_eq!(snapshot(&board), one_drawn);
    assert_eq!(count_lines(&board), 1);
    move_line(&mut board, West);
    assert_eq!(snapshot(&board), at_endpoint);
    assert_eq!(count_lines(&board), 0);
}

#[test]
fn drawing_and_taking_back_restores_the_grid_in_every_direction() {
    for d in [North, East, South, West] {
        let mut board = Board::from_text(b"...\n.A.\n..A").unwrap();
        assert!(board.is_playable());
        walk_to(&mut board, Coord { x: 1, y: 1 });
        board.toggle_selection();
        let before = snapshot(&board);
        move_line(&mut board, d);
        assert_eq!(board.selected_square(), Coord { x: 1, y: 1 } + d.as_coord());
        assert_ne!(snapshot(&board), before);
        move_line(&mut board, d.oposite());
        assert_eq!(snapshot(&board), before);
    }
}

#[test]
fn another_flow_blocks_the_move() {
    let mut board = fresh_board();
    walk_to(&mut board, Coord { x: 2, y: 2 });
    board.toggle_selection();
    move_line(&mut board, East);
    let before = snapshot(&board);
    // south of the open end lies an endpoint of flow B
    move_line(&mut board, South);
    assert_eq!(snapshot(&board), before);
    apply_move(&mut board, South);
    assert_eq!(snapshot(&board), before);
}

#[test]
fn the_line_of_another_flow_blocks_the_move() {
    let mut board = fresh_board();
    walk_to(&mut board, Coord { x: 3, y: 3 });
    board.toggle_selection();
    draw(&mut board, &[North, North]);
    board.toggle_selection();
    walk_to(&mut board, Coord { x: 2, y: 2 });
    board.toggle_selection();
    assert_eq!(board.selected_flow(), Some(0));
    let before = snapshot(&board);
    move_line(&mut board, East);
    assert_eq!(snapshot(&board), before);
}

#[test]
fn the_own_path_blocks_the_move_from_the_side() {
    let mut board = Board::from_text(b"A..\n...\n..A").unwrap();
    assert!(board.is_playable());
    board.toggle_selection();
    draw(&mut board, &[East, South, West]);
    assert_eq!(board.selected_square(), Coord { x: 0, y: 1 });
    let before = snapshot(&board);
    // the endpoint above is linked already, and not to this cell
    move_line(&mut board, North);
    assert_eq!(snapshot(&board), before);
}

#[test]
fn reaching_the_other_endpoint_finishes_the_flow() {
    let mut board = fresh_board();
    walk_to(&mut board, Coord { x: 5, y: 4 });
    board.toggle_selection();
    assert_eq!(board.selected_flow(), Some(2));
    draw(&mut board, &[South, West, West]);
    assert_eq!(board.selected_flow(), None);
    assert_eq!(board.selected_square(), Coord { x: 3, y: 5 });
    assert_eq!(*board.get(Coord { x: 5, y: 4 }), Square::Entry { flow: 2, dir: Some(South) });
    assert_eq!(
        *board.get(Coord { x: 5, y: 5 }),
        Square::Line { flow: 2, from: North, to: Some(West) }
    );
    assert_eq!(
        *board.get(Coord { x: 4, y: 5 }),
        Square::Line { flow: 2, from: East, to: Some(West) }
    );
    assert_eq!(*board.get(Coord { x: 3, y: 5 }), Square::Entry { flow: 2, dir: Some(East) });
    assert!(!board.is_solved());
}

#[test]
fn neighbouring_endpoints_are_joined_by_one_move() {
    let mut board = Board::from_text(b"AA").unwrap();
    assert!(board.is_playable());
    assert!(!board.is_solved());
    board.toggle_selection();
    move_line(&mut board, East);
    assert_eq!(board.selected_flow(), None);
    assert_eq!(*board.cell(0), Square::Entry { flow: 0, dir: Some(East) });
    assert_eq!(*board.cell(1), Square::Entry { flow: 0, dir: Some(West) });
    assert!(board.is_solved());
    // selecting either endpoint again unlinks both
    board.toggle_selection();
    assert_eq!(board.selected_flow(), Some(0));
    assert_eq!(*board.cell(0), Square::Entry { flow: 0, dir: None });
    assert_eq!(*board.cell(1), Square::Entry { flow: 0, dir: None });
}

#[test]
fn clear_line_erases_the_path_ahead() {
    let mut board = fresh_board();
    let fresh = snapshot(&board).0;
    walk_to(&mut board, Coord { x: 5, y: 0 });
    board.toggle_selection();
    draw(&mut board, &[West, West, South, South]);
    board.toggle_selection();
    assert_eq!(count_lines(&board), 4);
    // from the second line onward
    board.clear_line(Some(South), Coord { x: 3, y: 0 });
    assert_eq!(count_lines(&board), 2);
    assert_eq!(*board.get(Coord { x: 3, y: 1 }), Square::Empty);
    assert_eq!(*board.get(Coord { x: 3, y: 2 }), Square::Empty);
    assert_eq!(
        *board.get(Coord { x: 3, y: 0 }),
        Square::Line { flow: 4, from: East, to: Some(South) }
    );
    assert_eq!(
        *board.get(Coord { x: 4, y: 0 }),
        Square::Line { flow: 4, from: East, to: Some(West) }
    );
    // without a direction nothing is erased
    let before = snapshot(&board);
    board.clear_line(None, Coord { x: 5, y: 0 });
    assert_eq!(snapshot(&board), before);
    // with the cut end made an open end, the rest goes from the endpoint
    board.set(Coord { x: 3, y: 0 }, Square::Line { flow: 4, from: East, to: None });
    board.clear_line(Some(West), Coord { x: 5, y: 0 });
    assert_eq!(count_lines(&board), 0);
    assert_eq!(*board.get(Coord { x: 5, y: 0 }), Square::Entry { flow: 4, dir: Some(West) });
    board.set(Coord { x: 5, y: 0 }, Square::Entry { flow: 4, dir: None });
    assert_eq!(snapshot(&board).0, fresh);
}

#[test]
fn clear_line_unlinks_the_endpoint_at_the_end() {
    let mut board = fresh_board();
    walk_to(&mut board, Coord { x: 5, y: 4 });
    board.toggle_selection();
    draw(&mut board, &[South, West, West]);
    board.clear_line(Some(South), Coord { x: 5, y: 4 });
    assert_eq!(*board.get(Coord { x: 5, y: 5 }), Square::Empty);
    assert_eq!(*board.get(Coord { x: 4, y: 5 }), Square::Empty);
    assert_eq!(*board.get(Coord { x: 3, y: 5 }), Square::Entry { flow: 2, dir: None });
    assert_eq!(*board.get(Coord { x: 5, y: 4 }), Square::Entry { flow: 2, dir: Some(South) });
}
