use tictactoe::ai::Ai;
use tictactoe::game::{Board, Cell, Player};

fn copy_board(b: &Board) -> Board {
    Board {
        cells: b.cells.clone(),
        current_player: b.current_player,
        last_play: b.last_play,
    }
}

/// Plays the engine's move whenever it is the engine's turn and branches
/// over every legal opponent move otherwise; at every finished game the
/// engine side must not have lost.
fn explore_all_games(board: &Board, ai: &Ai) {
    if board.is_over() {
        assert_ne!(board.winner(), Some(ai.player.swap()));
        return;
    }
    if board.current_player == ai.player {
        let mut b = copy_board(board);
        let m = ai.next_move(&mut b);
        b.play(m).unwrap();
        explore_all_games(&b, ai);
    } else {
        for i in 0..9 {
            if board.cells[i].owner.is_none() {
                let mut b = copy_board(board);
                b.play(i).unwrap();
                explore_all_games(&b, ai);
            }
        }
    }
}

#[test]
fn test_never_loses_as_first_player() {
    let board = Board::new(Player::X);
    let ai = Ai { player: Player::X };
    explore_all_games(&board, &ai);
}

#[test]
fn test_never_loses_as_second_player() {
    let board = Board::new(Player::X);
    let ai = Ai { player: Player::O };
    explore_all_games(&board, &ai);
}

#[test]
fn test_self_play_is_a_draw() {
    for starter in [Player::X, Player::O] {
        let mut board = Board::new(starter);
        let ai_x = Ai { player: Player::X };
        let ai_o = Ai { player: Player::O };
        while !board.is_over() {
            let m = if board.current_player == Player::X {
                ai_x.next_move(&mut board)
            } else {
                ai_o.next_move(&mut board)
            };
            board.play(m).unwrap();
        }
        assert_eq!(board.winner(), None);
    }
}

#[test]
fn test_center_opening_reply() {
    let mut board = Board::new(Player::X);
    board.play(4).unwrap();
    let ai = Ai { player: Player::O };
    let m = ai.next_move(&mut board);
    assert!(m == 0 || m == 2 || m == 6 || m == 8);
    board.play(m).unwrap();
    explore_all_games(&board, &ai);
}

#[test]
fn test_takes_immediate_row_win() {
    let x = Cell { owner: Some(Player::X) };
    let o = Cell { owner: Some(Player::O) };
    let e = Cell { owner: None };

    let mut board = Board {
        cells: vec![
            x, x, e, //
            e, o, e, //
            e, e, e,
        ],
        current_player: Player::X,
        last_play: 0,
    };
    let ai = Ai { player: Player::X };
    let m = ai.next_move(&mut board);
    assert_eq!(m, 2);
    board.play(m).unwrap();
    assert_eq!(board.winner(), Some(Player::X));
}

#[test]
fn test_takes_immediate_column_win() {
    let x = Cell { owner: Some(Player::X) };
    let o = Cell { owner: Some(Player::O) };
    let e = Cell { owner: None };

    let mut board = Board {
        cells: vec![
            o, x, e, //
            o, x, e, //
            e, e, x,
        ],
        current_player: Player::O,
        last_play: 0,
    };
    let ai = Ai { player: Player::O };
    let m = ai.next_move(&mut board);
    assert_eq!(m, 6);
    board.play(m).unwrap();
    assert_eq!(board.winner(), Some(Player::O));
}

#[test]
fn test_search_leaves_board_unchanged() {
    let x = Cell { owner: Some(Player::X) };
    let o = Cell { owner: Some(Player::O) };
    let e = Cell { owner: None };

    let mut board = Board {
        cells: vec![
            x, o, e, //
            e, x, e, //
            e, e, e,
        ],
        current_player: Player::O,
        last_play: 1,
    };
    let cells_before: Vec<Cell> = board.cells.clone();
    let current_before = board.current_player;
    let last_before = board.last_play;

    let ai = Ai { player: Player::O };
    let m = ai.next_move(&mut board);

    assert!(m < 9);
    assert_eq!(board.cells, cells_before);
    assert_eq!(board.current_player, current_before);
    assert_eq!(board.last_play, last_before);
}

#[test]
fn test_tie_break_determinism() {
    let mut board = Board::new(Player::X);
    let ai = Ai { player: Player::X };
    let first = ai.next_move(&mut board);
    let second = ai.next_move(&mut board);
    let third = ai.next_move(&mut board);
    assert_eq!(first, second);
    assert_eq!(second, third);
    // every opening move is worth a draw, so the tie-break picks index 0
    assert_eq!(first, 0);
}

#[test]
fn test_lowest_of_two_immediate_wins() {
    let x = Cell { owner: Some(Player::X) };
    let o = Cell { owner: Some(Player::O) };
    let e = Cell { owner: None };

    // X can complete row 0-1-2 at cell 2 or column 0-3-6 at cell 6;
    // the earlier index wins the tie
    let mut board = Board {
        cells: vec![
            x, x, e, //
            x, o, o, //
            e, e, o,
        ],
        current_player: Player::X,
        last_play: 0,
    };
    let ai = Ai { player: Player::X };
    let m = ai.next_move(&mut board);
    assert_eq!(m, 2);
}

#[test]
fn test_available_moves() {
    let x = Cell { owner: Some(Player::X) };
    let o = Cell { owner: Some(Player::O) };
    let e = Cell { owner: None };

    let board = Board {
        cells: vec![
            x, e, o, //
            e, e, e, //
            e, e, x,
        ],
        current_player: Player::O,
        last_play: 0,
    };
    let ai = Ai { player: Player::O };
    assert_eq!(ai.available_moves(&board), vec![1, 3, 4, 5, 6, 7]);

    let fresh = Board::new(Player::X);
    assert_eq!(
        ai.available_moves(&fresh),
        vec![0, 1, 2, 3, 4, 5, 6, 7, 8]
    );
}
