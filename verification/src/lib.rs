//! Two small web-served games, blackjack and tic-tac-toe, with their game
//! state, the rules that move them and the text that reports them.

pub mod text;
pub mod cards;
pub mod blackjack;
pub mod tictactoe;
pub mod request;
pub mod server;
