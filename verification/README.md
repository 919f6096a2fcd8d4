# games

Two small games served over HTTP: blackjack against the dealer and
tic-tac-toe against the computer.

- `src/` is the verified library (Verus):
  - `text.rs`: decimal notation of numbers in replies;
  - `cards.rs`: card values, hand points and card names;
  - `blackjack.rs`: a blackjack table (`Blackjack`), its abstract view
    (`Table`) and the map of open tables (`GameMap`);
  - `tictactoe.rs`: the board (`TicTacToe`), the computer's strategy and
    the map of open games (`TicTacToeGameMap`);
  - `request.rs`: reading what a request line asks for;
  - `server.rs`: answering a request from the games it is for.
- `app/main.rs` is the server: sockets, threads and locks around the library.
  It serves each connection on a thread of its own, with no bound on how many
  run at once.
- `tests/` runs the library on concrete games and requests.
