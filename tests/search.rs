use tictactoe::board::{Board, GameState, Move, Tile};

fn board_with(first: Move, computer: &[(usize, usize)], player: &[(usize, usize)]) -> Board {
    let mut board = Board::new(first, Tile::X, Tile::O);
    for &pos in computer {
        board.make_move(pos, Tile::X);
    }
    for &pos in player {
        board.make_move(pos, Tile::O);
    }
    board
}

fn snapshot(board: &Board) -> Vec<Tile> {
    let mut cells = Vec::new();
    for row in 0..3 {
        for col in 0..3 {
            cells.push(board.tile((row, col)));
        }
    }
    cells
}

#[test]
fn empty_board_picks_first_cell() {
    let mut board = Board::new(Move::Computer, Tile::X, Tile::O);
    assert_eq!(board.choose_move(Move::Computer), (0, 0));
    assert_eq!(board.tile((0, 0)), Tile::X);
}

#[test]
fn takes_immediate_win_over_block() {
    let mut board = board_with(Move::Computer, &[(0, 0), (0, 1)], &[(1, 0), (1, 1)]);
    assert_eq!(board.choose_move(Move::Computer), (0, 2));
    assert_eq!(board.analyse(), Some(GameState::Win(Move::Computer)));
}

#[test]
fn takes_immediate_win_on_column() {
    let mut board = board_with(Move::Computer, &[(0, 2), (1, 2)], &[(0, 0), (1, 1)]);
    assert_eq!(board.choose_move(Move::Computer), (2, 2));
}

#[test]
fn takes_immediate_win_for_player_side() {
    let mut board = board_with(Move::Player, &[(0, 0), (0, 1), (2, 2)], &[(2, 0), (1, 1)]);
    assert_eq!(board.choose_move(Move::Player), (0, 2));
    assert_eq!(board.tile((0, 2)), Tile::O);
    assert_eq!(board.analyse(), Some(GameState::Win(Move::Player)));
}

#[test]
fn blocks_forced_cell() {
    let mut board = board_with(Move::Computer, &[(1, 1)], &[(0, 0), (0, 1)]);
    assert_eq!(board.choose_move(Move::Computer), (0, 2));
}

#[test]
fn blocks_forced_diagonal() {
    let mut board = board_with(Move::Computer, &[(0, 1)], &[(0, 0), (1, 1)]);
    assert_eq!(board.choose_move(Move::Computer), (2, 2));
}

#[test]
fn optimal_self_play_draws_after_every_first_move() {
    for first in 0..9 {
        let mut board = Board::new(Move::Computer, Tile::X, Tile::O);
        board.make_move((first / 3, first % 3), Tile::X);
        assert_eq!(board.analyse(), None);
        board.change_player();
        let result = loop {
            let side = board.current_move();
            board.choose_move(side);
            if let Some(state) = board.analyse() {
                break state;
            }
            board.change_player();
        };
        assert_eq!(result, GameState::Draw, "first move in cell {}", first);
    }
}

#[test]
fn search_leaves_other_cells_untouched() {
    let mut board = board_with(Move::Computer, &[(1, 1)], &[(0, 0)]);
    let before = snapshot(&board);
    let (row, col) = board.choose_move(Move::Computer);
    let after = snapshot(&board);
    for i in 0..9 {
        if i == row * 3 + col {
            assert_eq!(before[i], Tile::Free);
            assert_eq!(after[i], Tile::X);
        } else {
            assert_eq!(before[i], after[i]);
        }
    }
    assert_eq!(board.current_move(), Move::Computer);
}

#[test]
fn computer_move_plays_computer_tile() {
    let mut board = board_with(Move::Computer, &[(0, 0), (0, 1)], &[(1, 0), (1, 1)]);
    board.computer_move();
    assert_eq!(board.tile((0, 2)), Tile::X);
    assert_eq!(board.current_move(), Move::Computer);
}

#[test]
fn evaluate_scores_win_and_loss() {
    let board = board_with(Move::Computer, &[(0, 0), (1, 1), (2, 2)], &[(0, 1), (0, 2)]);
    assert_eq!(board.evaluate(Move::Computer), 10);
    assert_eq!(board.evaluate(Move::Player), -10);
    let open = board_with(Move::Computer, &[(0, 0)], &[]);
    assert_eq!(open.evaluate(Move::Computer), 0);
}

#[test]
fn minimax_rewards_faster_wins() {
    let mut won = board_with(Move::Computer, &[(0, 0), (1, 1), (2, 2)], &[(0, 1), (0, 2)]);
    assert_eq!(won.minimax(Move::Computer, 0), 10);
    assert_eq!(won.minimax(Move::Computer, 3), 7);
    assert_eq!(won.minimax(Move::Player, 3), -7);
    // Computer has just played; the player must then block, but the
    // computer's fork wins on its next move, two plies down.
    let mut fork = board_with(Move::Computer, &[(0, 0), (2, 2), (0, 2)], &[(1, 1), (2, 0)]);
    let before = snapshot(&fork);
    assert_eq!(fork.minimax(Move::Computer, 0), 8);
    assert_eq!(snapshot(&fork), before);
    assert_eq!(fork.current_move(), Move::Computer);
}

#[test]
fn minimax_of_full_board_without_line_is_zero() {
    let mut board = board_with(
        Move::Computer,
        &[(0, 0), (0, 1), (1, 2), (2, 0), (2, 2)],
        &[(0, 2), (1, 0), (1, 1), (2, 1)],
    );
    assert_eq!(board.analyse(), Some(GameState::Draw));
    assert_eq!(board.minimax(Move::Computer, 0), 0);
}
