use games::request::parse_number;
use games::text::push_decimal;
use games::tictactoe::{TicTacToe, TicTacToeGameMap};

#[test]
fn decimal_notation() {
    for n in [0usize, 7, 10, 99, 100, 1234567, usize::MAX] {
        let mut s = String::from("n=");
        push_decimal(&mut s, n);
        assert_eq!(s, format!("n={}", n));
    }
}

#[test]
fn numbers_in_replies_read_back() {
    for id in [0usize, 5, 40, 98765, usize::MAX] {
        let reply = TicTacToeGameMap::to_json(id, &TicTacToe::new());
        let start = "{id: ".len();
        let end = reply.find(',').unwrap();
        let digits: Vec<char> = reply[start..end].chars().collect();
        assert_eq!(parse_number(&digits), Some(id));
    }
}
