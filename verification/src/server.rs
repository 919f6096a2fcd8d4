//! Answering a request: the front page names the two games, and a game
//! request goes to the blackjack tables or to the tic-tac-toe games.

use vstd::prelude::*;
use crate::blackjack::{GameMap, Table};
use crate::request::{BlackjackAction, Request, TicTacToeAction};
use crate::tictactoe::{after_player_move, json_text, Piece, TicTacToeGameMap};

verus! {

/// A table after the player's `action`; finishing leaves the table as it is.
pub open spec fn played(t: Table, action: BlackjackAction) -> Table {
    match action {
        BlackjackAction::Hit => t.after_player_hit(),
        BlackjackAction::Stand => t.after_player_stand(),
        BlackjackAction::Finish => t,
    }
}

/// The open tables after `action` on table `id`: finishing closes it, the
/// other actions play it if it is open.
pub open spec fn blackjack_tables_after(tables: Map<usize, Table>, action: BlackjackAction, id: usize) -> Map<usize, Table> {
    if action == BlackjackAction::Finish {
        tables.remove(id)
    } else if tables.contains_key(id) {
        tables.insert(id, played(tables[id], action))
    } else {
        tables
    }
}

/// The reply to `action` on table `id`: empty after finishing; the played
/// table's report if it is open; "{}" otherwise.
pub open spec fn blackjack_reply_text(tables: Map<usize, Table>, action: BlackjackAction, id: usize) -> Seq<char> {
    if action == BlackjackAction::Finish {
        Seq::empty()
    } else if tables.contains_key(id) {
        played(tables[id], action).json_text(id as nat)
    } else {
        "{}"@
    }
}

/// The open games after `command` on game `id`: finishing closes it, a move
/// at `spot` plays it if it is open.
pub open spec fn tictactoe_boards_after(
    boards: Map<usize, Seq<Piece>>,
    command: TicTacToeAction,
    spot: usize,
    id: usize,
) -> Map<usize, Seq<Piece>> {
    if command == TicTacToeAction::Finish {
        boards.remove(id)
    } else if boards.contains_key(id) {
        boards.insert(id, after_player_move(boards[id], spot as int))
    } else {
        boards
    }
}

/// The reply to `command` on game `id`: empty after finishing; the played
/// game's report if it is open; "{}" otherwise.
pub open spec fn tictactoe_reply_text(
    boards: Map<usize, Seq<Piece>>,
    command: TicTacToeAction,
    spot: usize,
    id: usize,
) -> Seq<char> {
    if command == TicTacToeAction::Finish {
        Seq::empty()
    } else if boards.contains_key(id) {
        json_text(id as nat, after_player_move(boards[id], spot as int))
    } else {
        "{}"@
    }
}

/// The reply to the front page request: the names of the two games; no
/// reply to any other request.
pub fn index_reply(request: Request) -> (reply: Option<String>)
    ensures
        request is Index ==> (reply matches Some(r) && r@ == "/blackjack or /tictactoe"@),
        !(request is Index) ==> reply is None,
{
    match request {
        Request::Index => {
            let mut r = String::new();
            r.append("/blackjack or /tictactoe");
            Some(r)
        },
        _ => None,
    }
}

/// Answers a blackjack request from the open tables: a new table, or the
/// player's action on a table; no reply, and no change, for any other request.
pub fn serve_blackjack(games: &mut GameMap, request: Request) -> (reply: Option<String>)
    requires
        old(games).wf(),
        request is NewBlackjack ==> old(games).last_id() < usize::MAX,
    ensures
        final(games).wf(),
        match request {
            Request::NewBlackjack => {
                let id = final(games).last_id();
                &&& id == old(games).last_id() + 1
                &&& !old(games).tables().contains_key(id)
                &&& final(games).tables().contains_key(id)
                &&& final(games).tables().remove(id) == old(games).tables()
                &&& final(games).tables()[id].is_fresh_deal()
                &&& reply matches Some(r) && r@ == final(games).tables()[id].json_text(id as nat)
            },
            Request::Blackjack { action, id } => {
                &&& final(games).last_id() == old(games).last_id()
                &&& final(games).tables() == blackjack_tables_after(old(games).tables(), action, id)
                &&& reply matches Some(r) && r@ == blackjack_reply_text(old(games).tables(), action, id)
                &&& action == BlackjackAction::Stand && old(games).tables().contains_key(id)
                    ==> final(games).tables()[id].player_done()
            },
            _ => {
                &&& reply is None
                &&& final(games).tables() == old(games).tables()
                &&& final(games).last_id() == old(games).last_id()
            },
        },
{
    match request {
        Request::NewBlackjack => Some(games.create_game()),
        Request::Blackjack { action, id } => match action {
            BlackjackAction::Hit => Some(games.hit_game(id)),
            BlackjackAction::Stand => Some(games.stand_game(id)),
            BlackjackAction::Finish => Some(games.finish_game(id)),
        },
        _ => None,
    }
}

/// Answers a tic-tac-toe request from the open games: a new game, or the
/// player's command on a game; no reply, and no change, for any other request.
pub fn serve_tictactoe(games: &mut TicTacToeGameMap, request: Request) -> (reply: Option<String>)
    requires
        old(games).wf(),
        request is NewTicTacToe ==> old(games).last_id() < usize::MAX,
        request matches Request::TicTacToe { command, spot, id } ==> (command == TicTacToeAction::Move
            && old(games).boards().contains_key(id) ==> spot < 9),
    ensures
        final(games).wf(),
        match request {
            Request::NewTicTacToe => {
                let id = final(games).last_id();
                let empty = Seq::new(9, |i: int| Piece::Empty);
                &&& id == old(games).last_id() + 1
                &&& !old(games).boards().contains_key(id)
                &&& final(games).boards() == old(games).boards().insert(id, empty)
                &&& reply matches Some(r) && r@ == json_text(id as nat, empty)
            },
            Request::TicTacToe { command, spot, id } => {
                &&& final(games).last_id() == old(games).last_id()
                &&& final(games).boards() == tictactoe_boards_after(old(games).boards(), command, spot, id)
                &&& reply matches Some(r) && r@ == tictactoe_reply_text(old(games).boards(), command, spot, id)
            },
            _ => {
                &&& reply is None
                &&& final(games).boards() == old(games).boards()
                &&& final(games).last_id() == old(games).last_id()
            },
        },
{
    match request {
        Request::NewTicTacToe => Some(games.create_game()),
        Request::TicTacToe { command, spot, id } => match command {
            TicTacToeAction::Move => Some(games.move_game(id, spot)),
            TicTacToeAction::Finish => Some(games.finish_game(id)),
        },
        _ => None,
    }
}

} // verus!
