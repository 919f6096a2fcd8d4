use games::request::{parse_number, parse_request, BlackjackAction, Request, TicTacToeAction};

#[test]
fn bare_path_is_the_index() {
    assert_eq!(parse_request("GET / HTTP/1.1\r\n"), Some(Request::Index));
    assert_eq!(parse_request("GET //// HTTP/1.1"), Some(Request::Index));
    assert_eq!(parse_request("GET "), Some(Request::Index));
}

#[test]
fn request_without_a_path_field_is_refused() {
    assert_eq!(parse_request("GET"), None);
    assert_eq!(parse_request(""), None);
}

#[test]
fn blackjack_requests() {
    assert_eq!(parse_request("GET /blackjack HTTP/1.1"), Some(Request::NewBlackjack));
    assert_eq!(
        parse_request("GET /blackjack/hit/3 HTTP/1.1"),
        Some(Request::Blackjack { action: BlackjackAction::Hit, id: 3 })
    );
    assert_eq!(
        parse_request("GET //blackjack//stand/15/ HTTP/1.1"),
        Some(Request::Blackjack { action: BlackjackAction::Stand, id: 15 })
    );
    assert_eq!(
        parse_request("GET /blackjack/whatever/+7"),
        Some(Request::Blackjack { action: BlackjackAction::Finish, id: 7 })
    );
    assert_eq!(parse_request("GET /blackjack/hit HTTP/1.1"), None);
    assert_eq!(parse_request("GET /blackjack/hit/x HTTP/1.1"), None);
}

#[test]
fn tictactoe_requests() {
    assert_eq!(parse_request("GET /tictactoe HTTP/1.1"), Some(Request::NewTicTacToe));
    assert_eq!(
        parse_request("GET /tictactoe/move/4/2 HTTP/1.1"),
        Some(Request::TicTacToe { command: TicTacToeAction::Move, spot: 4, id: 2 })
    );
    assert_eq!(
        parse_request("GET /tictactoe/finish/0/9 HTTP/1.1"),
        Some(Request::TicTacToe { command: TicTacToeAction::Finish, spot: 0, id: 9 })
    );
    assert_eq!(parse_request("GET /tictactoe/move/4 HTTP/1.1"), None);
    assert_eq!(parse_request("GET /tictactoe/move/a/1 HTTP/1.1"), None);
}

#[test]
fn other_games_are_unknown() {
    assert_eq!(parse_request("GET /chess/e4 HTTP/1.1"), Some(Request::Unknown));
    assert_eq!(parse_request("GET /Blackjack HTTP/1.1"), Some(Request::Unknown));
}

#[test]
fn numbers_read_as_usize_from_str_does() {
    let v = |s: &str| s.chars().collect::<Vec<char>>();
    assert_eq!(parse_number(&v("0")), Some(0));
    assert_eq!(parse_number(&v("007")), Some(7));
    assert_eq!(parse_number(&v("+12")), Some(12));
    assert_eq!(parse_number(&v("")), None);
    assert_eq!(parse_number(&v("+")), None);
    assert_eq!(parse_number(&v("-1")), None);
    assert_eq!(parse_number(&v("1a")), None);
    assert_eq!(parse_number(&v("99999999999999999999999")), None);
    for s in ["0", "42", "+3", "18446744073709551615", "18446744073709551616", "x", "-0", " 1"] {
        assert_eq!(parse_number(&v(s)), s.parse::<usize>().ok());
    }
}
