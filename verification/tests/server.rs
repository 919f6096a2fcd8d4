use games::blackjack::GameMap;
use games::request::{parse_request, BlackjackAction, Request, TicTacToeAction};
use games::server::{index_reply, serve_blackjack, serve_tictactoe};
use games::tictactoe::TicTacToeGameMap;

#[test]
fn front_page_names_the_games() {
    assert_eq!(index_reply(Request::Index), Some(String::from("/blackjack or /tictactoe")));
    assert_eq!(index_reply(Request::Unknown), None);
    assert_eq!(index_reply(Request::NewBlackjack), None);
}

#[test]
fn blackjack_requests_go_to_the_tables() {
    let mut games = GameMap::new();
    let hit = Request::Blackjack { action: BlackjackAction::Hit, id: 1 };
    assert_eq!(serve_blackjack(&mut games, hit), Some(String::from("{}")));
    let reply = serve_blackjack(&mut games, Request::NewBlackjack).unwrap();
    assert!(reply.starts_with("{id: 1, player: \""));
    let stand = Request::Blackjack { action: BlackjackAction::Stand, id: 1 };
    let reply = serve_blackjack(&mut games, stand).unwrap();
    assert!(reply.contains("result: \""));
    let finish = Request::Blackjack { action: BlackjackAction::Finish, id: 1 };
    assert_eq!(serve_blackjack(&mut games, finish), Some(String::new()));
    assert_eq!(serve_blackjack(&mut games, hit), Some(String::from("{}")));
    assert_eq!(serve_blackjack(&mut games, Request::NewTicTacToe), None);
    assert_eq!(games.last_id(), 1);
}

#[test]
fn tictactoe_requests_go_to_the_games() {
    let mut games = TicTacToeGameMap::new();
    let request = parse_request("GET /tictactoe HTTP/1.1").unwrap();
    let reply = serve_tictactoe(&mut games, request).unwrap();
    assert_eq!(reply, "{id: 1, game: \"[ ,  ,  ,  ,  ,  ,  ,  ,  , ]\", status: \"Your move.\"}");
    let request = parse_request("GET /tictactoe/move/4/1 HTTP/1.1").unwrap();
    let reply = serve_tictactoe(&mut games, request).unwrap();
    assert_eq!(reply, "{id: 1, game: \"[X ,  ,  ,  , O ,  ,  ,  ,  , ]\", status: \"Your move.\"}");
    let finish = Request::TicTacToe { command: TicTacToeAction::Finish, spot: 0, id: 1 };
    assert_eq!(serve_tictactoe(&mut games, finish), Some(String::new()));
    let missing = Request::TicTacToe { command: TicTacToeAction::Move, spot: 40, id: 1 };
    assert_eq!(serve_tictactoe(&mut games, missing), Some(String::from("{}")));
    assert_eq!(serve_tictactoe(&mut games, Request::Index), None);
}
