use tictactoe::board::{Board, GameState, Move, Tile, OCCUPIED, OUT_OF_BOUNDS};

#[test]
fn new_board_is_empty() {
    let board = Board::new(Move::Player, Tile::X, Tile::O);
    assert!(board.has_free_tiles());
    assert_eq!(board.analyse(), None);
    assert_eq!(board.current_move(), Move::Player);
    assert_eq!(board.computer_tile(), Tile::X);
    assert_eq!(board.player_tile(), Tile::O);
    for row in 0..3 {
        for col in 0..3 {
            assert_eq!(board.tile((row, col)), Tile::Free);
        }
    }
}

#[test]
fn row_win_goes_to_side_to_move() {
    let mut board = Board::new(Move::Player, Tile::X, Tile::O);
    for col in 0..3 {
        board.make_move((1, col), Tile::O);
    }
    assert_eq!(board.analyse(), Some(GameState::Win(Move::Player)));
    board.change_player();
    assert_eq!(board.analyse(), Some(GameState::Win(Move::Computer)));
}

#[test]
fn column_win_detected() {
    let mut board = Board::new(Move::Computer, Tile::X, Tile::O);
    for row in 0..3 {
        board.make_move((row, 2), Tile::X);
    }
    assert_eq!(board.analyse(), Some(GameState::Win(Move::Computer)));
}

#[test]
fn diagonal_wins_detected() {
    let mut main = Board::new(Move::Computer, Tile::X, Tile::O);
    for k in 0..3 {
        main.make_move((k, k), Tile::X);
    }
    assert_eq!(main.analyse(), Some(GameState::Win(Move::Computer)));
    let mut anti = Board::new(Move::Player, Tile::X, Tile::O);
    for k in 0..3 {
        anti.make_move((k, 2 - k), Tile::O);
    }
    assert_eq!(anti.analyse(), Some(GameState::Win(Move::Player)));
}

#[test]
fn mixed_line_is_no_win() {
    let mut board = Board::new(Move::Computer, Tile::X, Tile::O);
    board.make_move((0, 0), Tile::X);
    board.make_move((0, 1), Tile::O);
    board.make_move((0, 2), Tile::X);
    assert_eq!(board.analyse(), None);
}

#[test]
fn full_board_without_line_is_draw() {
    let mut board = Board::new(Move::Computer, Tile::X, Tile::O);
    let xs = [(0, 0), (0, 1), (1, 2), (2, 0), (2, 2)];
    let os = [(0, 2), (1, 0), (1, 1), (2, 1)];
    for &p in &xs {
        board.make_move(p, Tile::X);
    }
    for &p in &os {
        board.make_move(p, Tile::O);
    }
    assert!(!board.has_free_tiles());
    assert_eq!(board.analyse(), Some(GameState::Draw));
}

#[test]
fn outcome_is_repeatable() {
    let mut board = Board::new(Move::Computer, Tile::X, Tile::O);
    board.make_move((1, 1), Tile::X);
    board.make_move((0, 0), Tile::O);
    assert_eq!(board.analyse(), board.analyse());
    for k in 0..3 {
        if k != 1 {
            board.make_move((k, k), Tile::X);
        }
    }
    let first = board.analyse();
    assert_eq!(first, Some(GameState::Win(Move::Computer)));
    assert_eq!(board.analyse(), first);
}

#[test]
fn check_move_reports_each_error() {
    let mut board = Board::new(Move::Player, Tile::X, Tile::O);
    assert_eq!(board.check_move((2, 1)), Ok((2, 1)));
    assert_eq!(board.check_move((3, 0)), Err(OUT_OF_BOUNDS));
    assert_eq!(board.check_move((0, 3)), Err(OUT_OF_BOUNDS));
    assert_eq!(board.check_move((7, 9)), Err("place tile in bounds (0 <= col <= 2, 0 <= row <= 2)!"));
    board.make_move((2, 1), Tile::O);
    assert_eq!(board.check_move((2, 1)), Err(OCCUPIED));
    assert_eq!(board.check_move((2, 1)), Err("choose free tile!"));
}

#[test]
fn make_move_writes_one_cell_and_keeps_turn() {
    let mut board = Board::new(Move::Player, Tile::X, Tile::O);
    board.make_move((1, 2), Tile::O);
    assert_eq!(board.tile((1, 2)), Tile::O);
    assert_eq!(board.tile((2, 1)), Tile::Free);
    assert_eq!(board.current_move(), Move::Player);
}

#[test]
fn change_player_toggles() {
    let mut board = Board::new(Move::Player, Tile::X, Tile::O);
    board.change_player();
    assert_eq!(board.current_move(), Move::Computer);
    board.change_player();
    assert_eq!(board.current_move(), Move::Player);
}

#[test]
fn last_free_cell_is_seen() {
    let mut board = Board::new(Move::Computer, Tile::X, Tile::O);
    let xs = [(0, 0), (0, 1), (1, 2), (2, 0)];
    let os = [(0, 2), (1, 0), (1, 1), (2, 1)];
    for &p in &xs {
        board.make_move(p, Tile::X);
    }
    for &p in &os {
        board.make_move(p, Tile::O);
    }
    assert!(board.has_free_tiles());
    assert_eq!(board.analyse(), None);
}

#[test]
fn tile_symbols() {
    assert_eq!(Tile::X.symbol(), 'X');
    assert_eq!(Tile::O.symbol(), 'O');
    assert_eq!(Tile::Free.symbol(), ' ');
}
