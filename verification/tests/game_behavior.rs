#![allow(non_snake_case)]
use connect_four::board::Player;
use connect_four::game::Game;
use connect_four::game::MoveError;

/// Plays the given columns in order, expecting every move to be accepted.
fn play_all(g: &mut Game, cols: &[usize]) {
    for &c in cols {
        let res = g.MakeMove(c);
        assert!(res.is_ok());
    }
}

fn snapshot(g: &Game) -> (u8, Player, Vec<Vec<Player>>, bool, Player) {
    (
        g.CurrentMove,
        g.CurrentPlayer,
        g.Board.clone(),
        g.IsFinished,
        g.Winner,
    )
}

#[test]
fn fresh_game_is_empty_and_player_one_starts() {
    let g = Game::new();
    assert_eq!(g.CurrentMove, 0);
    assert_eq!(g.CurrentPlayer, Player::One);
    assert!(!g.IsFinished);
    assert_eq!(g.Winner, Player::Empty);
    assert_eq!(g.Board.len(), 6);
    for row in &g.Board {
        assert_eq!(row.len(), 7);
        for cell in row {
            assert_eq!(*cell, Player::Empty);
        }
    }
}

#[test]
fn column_seven_is_invalid_on_a_seven_wide_board() {
    let mut g = Game::new();
    let res = g.MakeMove(7);
    assert_eq!(res, Err(MoveError::InvalidColumn));
}

#[test]
fn invalid_column_leaves_state_unchanged() {
    let mut g = Game::new();
    play_all(&mut g, &[3, 4]);
    let before = snapshot(&g);
    assert_eq!(g.MakeMove(7), Err(MoveError::InvalidColumn));
    assert_eq!(snapshot(&g), before);
    assert_eq!(g.MakeMove(100), Err(MoveError::InvalidColumn));
    assert_eq!(snapshot(&g), before);
}

#[test]
fn seventh_move_into_a_filled_column_is_rejected() {
    let mut g = Game::new();
    // Six alternating moves fill column 2 without a vertical line.
    play_all(&mut g, &[2, 2, 2, 2, 2, 2]);
    assert!(!g.IsFinished);
    let before = snapshot(&g);
    assert_eq!(g.MakeMove(2), Err(MoveError::ColumnFull));
    assert_eq!(snapshot(&g), before);
}

#[test]
fn move_count_rises_by_one_per_accepted_move() {
    let mut g = Game::new();
    let cols = [0, 1, 2, 3, 4, 5, 6, 6, 5];
    for (i, &c) in cols.iter().enumerate() {
        assert_eq!(g.CurrentMove as usize, i);
        assert!(g.MakeMove(c).is_ok());
        assert_eq!(g.CurrentMove as usize, i + 1);
    }
}

#[test]
fn rejected_moves_do_not_advance_the_turn_or_the_count() {
    let mut g = Game::new();
    assert_eq!(g.MakeMove(9), Err(MoveError::InvalidColumn));
    assert_eq!(g.CurrentMove, 0);
    assert_eq!(g.CurrentPlayer, Player::One);
}

#[test]
fn players_alternate_while_the_game_runs() {
    let mut g = Game::new();
    assert_eq!(g.CurrentPlayer, Player::One);
    assert!(g.MakeMove(0).is_ok());
    assert_eq!(g.CurrentPlayer, Player::Two);
    assert!(g.MakeMove(1).is_ok());
    assert_eq!(g.CurrentPlayer, Player::One);
    assert!(g.MakeMove(2).is_ok());
    assert_eq!(g.CurrentPlayer, Player::Two);
}

#[test]
fn four_in_column_zero_wins_after_seven_moves() {
    let mut g = Game::new();
    // Player one stacks column 0 on moves 1, 3, 5 and 7; player two plays
    // column 1 in between. Move 7 completes the vertical line.
    play_all(&mut g, &[0, 1, 0, 1, 0, 1]);
    assert!(!g.IsFinished);
    assert_eq!(g.Winner, Player::Empty);
    assert!(g.MakeMove(0).is_ok());
    assert_eq!(g.CurrentMove, 7);
    assert!(g.IsFinished);
    assert_eq!(g.Winner, Player::One);
    // The turn stays with the winner once the game ends.
    assert_eq!(g.CurrentPlayer, Player::One);
}

#[test]
fn moves_after_the_game_ended_fail_and_change_nothing() {
    let mut g = Game::new();
    play_all(&mut g, &[0, 1, 0, 1, 0, 1, 0]);
    assert!(g.IsFinished);
    let before = snapshot(&g);
    assert_eq!(g.MakeMove(3), Err(MoveError::GameFinished));
    assert_eq!(snapshot(&g), before);
    // Finished takes precedence even over an out-of-range column.
    assert_eq!(g.MakeMove(7), Err(MoveError::GameFinished));
    assert_eq!(snapshot(&g), before);
}

#[test]
fn horizontal_line_on_the_bottom_row_wins() {
    let mut g = Game::new();
    play_all(&mut g, &[0, 0, 1, 1, 2, 2]);
    assert!(!g.IsFinished);
    assert!(g.MakeMove(3).is_ok());
    assert!(g.IsFinished);
    assert_eq!(g.Winner, Player::One);
    assert_eq!(g.CurrentMove, 7);
}

#[test]
fn rising_diagonal_line_wins() {
    let mut g = Game::new();
    // A staircase toward the upper right for player one: the line runs
    // through column 0 height 1, column 1 height 2, column 2 height 3,
    // and column 3 height 4.
    play_all(&mut g, &[0, 1, 1, 3, 2, 2, 2, 3, 3, 5]);
    assert!(!g.IsFinished);
    assert!(g.MakeMove(3).is_ok());
    assert!(g.IsFinished);
    assert_eq!(g.Winner, Player::One);
}

#[test]
fn falling_diagonal_line_wins() {
    let mut g = Game::new();
    // The mirror staircase: the line runs through column 0 height 4,
    // column 1 height 3, column 2 height 2, and column 3 height 1.
    play_all(&mut g, &[3, 2, 2, 1, 1, 0, 1, 0, 0, 5]);
    assert!(!g.IsFinished);
    assert!(g.MakeMove(0).is_ok());
    assert!(g.IsFinished);
    assert_eq!(g.Winner, Player::One);
}

#[test]
fn second_player_can_win_as_well() {
    let mut g = Game::new();
    // Player two stacks column 6 while player one spreads moves out.
    play_all(&mut g, &[0, 6, 1, 6, 2, 6, 4]);
    assert!(!g.IsFinished);
    assert!(g.MakeMove(6).is_ok());
    assert!(g.IsFinished);
    assert_eq!(g.Winner, Player::Two);
    assert_eq!(g.CurrentPlayer, Player::Two);
}

#[test]
fn filling_the_board_without_a_line_is_a_draw() {
    let mut g = Game::new();
    // Column pairs are filled so that every column reads, bottom up, either
    // mark-mark-other-other-mark-mark or its inverse; column 6 alternates.
    // No four equal marks line up anywhere in the final grid.
    let cols = [
        0, 1, 0, 1, 1, 0, 1, 0, 0, 1, 0, 1, //
        2, 3, 2, 3, 3, 2, 3, 2, 2, 3, 2, 3, //
        4, 5, 4, 5, 5, 4, 5, 4, 4, 5, 4, 5, //
        6, 6, 6, 6, 6, 6,
    ];
    for (i, &c) in cols.iter().enumerate() {
        assert!(!g.IsFinished, "game ended early after {} moves", i);
        assert!(g.MakeMove(c).is_ok());
    }
    assert_eq!(g.CurrentMove, 42);
    assert!(g.IsFinished);
    assert_eq!(g.Winner, Player::Empty);
    // Every further move is rejected: the game is over.
    assert_eq!(g.MakeMove(0), Err(MoveError::GameFinished));
}

#[test]
fn from_int_decodes_the_cell_encoding() {
    assert_eq!(Player::FromInt(1), Player::One);
    assert_eq!(Player::FromInt(2), Player::Two);
    assert_eq!(Player::FromInt(0), Player::Empty);
    assert_eq!(Player::FromInt(77), Player::Empty);
}

#[test]
fn error_messages_match_the_session_wording() {
    assert_eq!(MoveError::GameFinished.message(), "Game is already finished");
    assert_eq!(MoveError::InvalidColumn.message(), "Invalid column");
    assert_eq!(MoveError::ColumnFull.message(), "Column is full");
}

#[test]
fn find_winner_sees_no_line_on_a_fresh_board() {
    let g = Game::new();
    assert_eq!(g.FindWinner(), Player::Empty);
}

#[test]
fn find_winner_reports_the_player_with_the_line() {
    let mut g = Game::new();
    play_all(&mut g, &[0, 1, 0, 1, 0, 1, 0]);
    assert_eq!(g.FindWinner(), Player::One);
}

#[test]
fn pieces_stack_from_the_bottom_row_upward() {
    let mut g = Game::new();
    play_all(&mut g, &[4, 4]);
    assert_eq!(g.Board[5][4], Player::One);
    assert_eq!(g.Board[4][4], Player::Two);
    assert_eq!(g.Board[3][4], Player::Empty);
}
