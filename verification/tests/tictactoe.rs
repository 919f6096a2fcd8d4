use games::tictactoe::{Piece, TicTacToe, TicTacToeGameMap};

#[test]
fn empty_board_no_winners() {
    let mut ttt = TicTacToe::new();

    for _row in 0..3 {
        assert_eq!(true, ttt.can_win_down_diag(Piece::Empty));
        assert_eq!(false, ttt.can_win_down_diag(Piece::X));
        assert_eq!(false, ttt.can_win_down_diag(Piece::O));

        assert_eq!(true, ttt.can_win_up_diag(Piece::Empty));
        assert_eq!(false, ttt.can_win_up_diag(Piece::X));
        assert_eq!(false, ttt.can_win_up_diag(Piece::O));
    }

    for index in 0..9 {
        assert_eq!(true, ttt.has_piece(Piece::Empty, index));
        assert_eq!(false, ttt.has_piece(Piece::X, index));
        assert_eq!(false, ttt.has_piece(Piece::O, index));

        assert_eq!(false, ttt.can_win(Piece::Empty, index));
        assert_eq!(false, ttt.can_win(Piece::X, index));
        assert_eq!(false, ttt.can_win(Piece::O, index));
    }
    ttt.set_piece(0, Piece::Empty);
}

#[test]
fn one_piece_no_winners() {
    let mut ttt = TicTacToe::new();
    ttt.set_piece(0, Piece::X);

    for _row in 0..3 {
        assert_eq!(false, ttt.can_win_down_diag(Piece::Empty));
        assert_eq!(false, ttt.can_win_down_diag(Piece::X));
        assert_eq!(false, ttt.can_win_down_diag(Piece::O));

        assert_eq!(true, ttt.can_win_up_diag(Piece::Empty));
        assert_eq!(false, ttt.can_win_up_diag(Piece::X));
        assert_eq!(false, ttt.can_win_up_diag(Piece::O));
    }

    assert_eq!(false, ttt.has_piece(Piece::Empty, 0));
    assert_eq!(true, ttt.has_piece(Piece::X, 0));
    assert_eq!(false, ttt.has_piece(Piece::O, 0));

    for index in 1..9 {
        assert_eq!(true, ttt.has_piece(Piece::Empty, index));
        assert_eq!(false, ttt.has_piece(Piece::X, index));
        assert_eq!(false, ttt.has_piece(Piece::O, index));

        assert_eq!(false, ttt.can_win(Piece::Empty, index));
        assert_eq!(false, ttt.can_win(Piece::X, index));
        assert_eq!(false, ttt.can_win(Piece::O, index));
    }
}

#[test]
fn empty_board_prints_nine_blank_cells() {
    let ttt = TicTacToe::new();
    assert_eq!(ttt.to_string(), "[ ,  ,  ,  ,  ,  ,  ,  ,  , ]");
}

#[test]
fn player_in_centre_computer_takes_first_corner() {
    let mut ttt = TicTacToe::new();
    ttt.player_move(4);
    assert!(ttt.has_piece(Piece::O, 4));
    assert!(ttt.has_piece(Piece::X, 0));
    assert_eq!(ttt.to_string(), "[X ,  ,  ,  , O ,  ,  ,  ,  , ]");
    assert_eq!(ttt.did_win(), Piece::Empty);
}

#[test]
fn move_on_taken_cell_changes_nothing() {
    let mut ttt = TicTacToe::new();
    ttt.set_piece(3, Piece::X);
    ttt.player_move(3);
    assert_eq!(ttt.to_string(), "[ ,  ,  , X ,  ,  ,  ,  ,  , ]");
}

#[test]
fn computer_completes_its_row() {
    let mut ttt = TicTacToe::new();
    ttt.set_piece(0, Piece::X);
    ttt.set_piece(1, Piece::X);
    ttt.set_piece(3, Piece::O);
    ttt.set_piece(4, Piece::O);
    assert!(ttt.can_win(Piece::X, 2));
    assert!(ttt.can_win(Piece::O, 5));
    ttt.computer_move();
    assert!(ttt.has_piece(Piece::X, 2));
    assert!(ttt.has_piece(Piece::Empty, 5));
    assert_eq!(ttt.did_win(), Piece::X);
}

#[test]
fn computer_blocks_the_player() {
    let mut ttt = TicTacToe::new();
    ttt.set_piece(0, Piece::O);
    ttt.set_piece(4, Piece::O);
    ttt.set_piece(2, Piece::X);
    ttt.computer_move();
    assert!(ttt.has_piece(Piece::X, 8));
    assert_eq!(ttt.did_win(), Piece::Empty);
}

#[test]
fn computer_takes_centre_then_first_empty() {
    let mut ttt = TicTacToe::new();
    let pieces = [Piece::X, Piece::O, Piece::X, Piece::X, Piece::Empty, Piece::O, Piece::O, Piece::X, Piece::O];
    for i in 0..9 {
        ttt.set_piece(i, pieces[i]);
    }
    assert!(!ttt.corner_is_open());
    for i in 0..9 {
        assert!(!ttt.can_win(Piece::X, i));
        assert!(!ttt.can_win(Piece::O, i));
    }
    ttt.computer_move();
    assert!(ttt.has_piece(Piece::X, 4));

    let mut nearly_full = TicTacToe::new();
    for i in 0..9 {
        nearly_full.set_piece(i, Piece::O);
    }
    nearly_full.set_piece(5, Piece::Empty);
    nearly_full.set_piece(7, Piece::Empty);
    nearly_full.go_in_first_empty();
    assert!(nearly_full.has_piece(Piece::X, 5));
    assert!(nearly_full.has_piece(Piece::Empty, 7));
}

#[test]
fn arbitrary_corner_goes_in_first_open_corner() {
    let mut ttt = TicTacToe::new();
    ttt.set_piece(0, Piece::O);
    ttt.set_piece(2, Piece::O);
    ttt.go_in_arbitrary_corner(Piece::X);
    assert!(ttt.has_piece(Piece::X, 6));
    assert!(ttt.has_piece(Piece::Empty, 8));
}

#[test]
fn three_in_a_row_needs_a_real_piece() {
    let mut ttt = TicTacToe::new();
    assert!(!ttt.three_in_a_row(0, 1, 2));
    ttt.set_piece(2, Piece::O);
    ttt.set_piece(4, Piece::O);
    ttt.set_piece(6, Piece::O);
    assert!(ttt.three_in_a_row(6, 4, 2));
    assert_eq!(ttt.did_win(), Piece::O);
}

#[test]
fn diagonal_open_with_one_gap() {
    let mut ttt = TicTacToe::new();
    ttt.set_piece(0, Piece::O);
    ttt.set_piece(8, Piece::O);
    assert!(ttt.can_win_down_diag(Piece::O));
    assert!(ttt.can_win(Piece::O, 4));
    assert!(!ttt.can_win(Piece::O, 2));
}

#[test]
fn game_map_create_move_finish() {
    let mut games = TicTacToeGameMap::new();
    assert_eq!(games.last_id(), 0);
    assert_eq!(games.move_game(1, 4), "{}");
    let reply = games.create_game();
    assert_eq!(reply, "{id: 1, game: \"[ ,  ,  ,  ,  ,  ,  ,  ,  , ]\", status: \"Your move.\"}");
    assert!(games.has_game(1));
    let reply = games.move_game(1, 4);
    assert_eq!(reply, "{id: 1, game: \"[X ,  ,  ,  , O ,  ,  ,  ,  , ]\", status: \"Your move.\"}");
    assert_eq!(games.finish_game(1), "");
    assert!(!games.has_game(1));
    assert_eq!(games.move_game(1, 4), "{}");
    let reply = games.create_game();
    assert!(reply.starts_with("{id: 2, "));
}

#[test]
fn status_reports_the_winner() {
    let mut ttt = TicTacToe::new();
    ttt.set_piece(0, Piece::O);
    ttt.set_piece(1, Piece::O);
    ttt.set_piece(2, Piece::O);
    assert_eq!(
        TicTacToeGameMap::to_json(12, &ttt),
        "{id: 12, game: \"[O , O , O ,  ,  ,  ,  ,  ,  , ]\", status: \"You won!\"}"
    );
    let mut lost = TicTacToe::new();
    lost.set_piece(2, Piece::X);
    lost.set_piece(5, Piece::X);
    lost.set_piece(8, Piece::X);
    assert!(TicTacToeGameMap::to_json(3, &lost).ends_with("status: \"You lost!\"}"));
}

#[test]
fn checks_stop_before_reading_past_the_board() {
    let mut ttt = TicTacToe::new();
    assert!(!ttt.can_win(Piece::Empty, 99));
    assert!(!ttt.three_in_a_row(0, 99, 99));
    ttt.set_piece(0, Piece::X);
    assert!(!ttt.three_in_a_row(0, 1, 99));
}

#[test]
fn a_winning_cell_wins() {
    let mut ttt = TicTacToe::new();
    ttt.set_piece(2, Piece::O);
    ttt.set_piece(6, Piece::O);
    assert_eq!(ttt.did_win(), Piece::Empty);
    assert!(ttt.can_win(Piece::O, 4));
    ttt.set_piece(4, Piece::O);
    assert_eq!(ttt.did_win(), Piece::O);
}
