//! Tic-tac-toe against the computer: the player places O, the computer
//! answers with X. Cells are numbered 0 to 8, row by row.

use std::collections::HashMap;
use vstd::prelude::*;
use crate::text::{decimal, push_decimal};

verus! {

/// What a cell of the board holds.
#[derive(Debug, Copy, Clone, PartialEq, Eq, Structural)]
pub enum Piece {
    Empty,
    X,
    O,
}

/// The computer plays X.
pub const COMPUTER_PIECE: Piece = Piece::X;

/// The player plays O.
pub const PLAYER_PIECE: Piece = Piece::O;

/// The three cells of line `k` (0 to 7): the rows, the columns, the
/// diagonal from the top left, then the diagonal from the top right.
pub open spec fn line(k: int) -> (int, int, int) {
    if k == 0 { (0, 1, 2) }
    else if k == 1 { (3, 4, 5) }
    else if k == 2 { (6, 7, 8) }
    else if k == 3 { (0, 3, 6) }
    else if k == 4 { (1, 4, 7) }
    else if k == 5 { (2, 5, 8) }
    else if k == 6 { (0, 4, 8) }
    else { (2, 4, 6) }
}

/// All three cells of line `k` hold `p`.
pub open spec fn line_of(b: Seq<Piece>, k: int, p: Piece) -> bool {
    let (i, j, l) = line(k);
    b[i] == p && b[j] == p && b[l] == p
}

/// Some line of `b` is all `p`.
pub open spec fn has_line(b: Seq<Piece>, p: Piece) -> bool {
    exists|k: int| 0 <= k < 8 && #[trigger] line_of(b, k, p)
}

/// The three cells `i`, `j`, `l` hold the same piece, and it is not `Empty`.
pub open spec fn three_same(b: Seq<Piece>, i: int, j: int, l: int) -> bool {
    b[i] != Piece::Empty && b[i] == b[j] && b[j] == b[l]
}

/// The three cells in order are `p`, `p`, `p` but for exactly one empty
/// cell, which may be any of them.
pub open spec fn two_and_a_gap(a: Piece, b: Piece, c: Piece, p: Piece) -> bool {
    ||| (a == Piece::Empty && b == p && c == p)
    ||| (a == p && b == Piece::Empty && c == p)
    ||| (a == p && b == p && c == Piece::Empty)
}

/// `p` can complete the diagonal 0, 4, 8 with one more piece.
pub open spec fn down_diag_open(b: Seq<Piece>, p: Piece) -> bool {
    two_and_a_gap(b[0], b[4], b[8], p)
}

/// `p` can complete the diagonal 2, 4, 6 with one more piece.
pub open spec fn up_diag_open(b: Seq<Piece>, p: Piece) -> bool {
    two_and_a_gap(b[2], b[4], b[6], p)
}

/// The two other cells of the row of cell `i` hold `p`.
pub open spec fn row_wins(b: Seq<Piece>, p: Piece, i: int) -> bool {
    if i % 3 == 0 {
        b[i + 1] == p && b[i + 2] == p
    } else if i % 3 == 1 {
        b[i - 1] == p && b[i + 1] == p
    } else {
        b[i - 2] == p && b[i - 1] == p
    }
}

/// The two other cells of the column of cell `i` hold `p`.
pub open spec fn column_wins(b: Seq<Piece>, p: Piece, i: int) -> bool {
    if i / 3 == 0 {
        b[i + 3] == p && b[i + 6] == p
    } else if i / 3 == 1 {
        b[i - 3] == p && b[i + 3] == p
    } else {
        b[i - 6] == p && b[i - 3] == p
    }
}

/// Placing `p` (not `Empty`) in the empty cell `i` completes a line: its
/// row, its column, or a diagonal through it.
pub open spec fn wins_at(b: Seq<Piece>, p: Piece, i: int) -> bool {
    &&& p != Piece::Empty
    &&& b[i] == Piece::Empty
    &&& {
        ||| row_wins(b, p, i)
        ||| column_wins(b, p, i)
        ||| ((i == 0 || i == 4 || i == 8) && down_diag_open(b, p))
        ||| ((i == 6 || i == 4 || i == 2) && up_diag_open(b, p))
    }
}

/// The winner of `b`: the lines are looked at in the order 0-1-2, 0-3-6,
/// 0-4-8, 3-4-5, 6-7-8, 1-4-7, 2-5-8, 6-4-2, and the piece of the first
/// full line is the winner; `Empty` when no line is full.
pub open spec fn winner(b: Seq<Piece>) -> Piece {
    if three_same(b, 0, 1, 2) || three_same(b, 0, 3, 6) || three_same(b, 0, 4, 8) {
        b[0]
    } else if three_same(b, 3, 4, 5) {
        b[3]
    } else if three_same(b, 6, 7, 8) {
        b[6]
    } else if three_same(b, 1, 4, 7) {
        b[1]
    } else if three_same(b, 2, 5, 8) || three_same(b, 6, 4, 2) {
        b[2]
    } else {
        Piece::Empty
    }
}

/// The first cell from `k` on where `p` wins.
pub open spec fn first_win_from(b: Seq<Piece>, p: Piece, k: int) -> Option<int>
    decreases 9 - k,
{
    if k >= 9 {
        None
    } else if wins_at(b, p, k) {
        Some(k)
    } else {
        first_win_from(b, p, k + 1)
    }
}

/// The first empty cell from `k` on.
pub open spec fn first_empty_from(b: Seq<Piece>, k: int) -> Option<int>
    decreases 9 - k,
{
    if k >= 9 {
        None
    } else if b[k] == Piece::Empty {
        Some(k)
    } else {
        first_empty_from(b, k + 1)
    }
}

/// Some corner is empty.
pub open spec fn corner_open(b: Seq<Piece>) -> bool {
    b[0] == Piece::Empty || b[2] == Piece::Empty || b[6] == Piece::Empty || b[8] == Piece::Empty
}

/// The first empty corner, in the order 0, 2, 6, 8.
pub open spec fn first_open_corner(b: Seq<Piece>) -> Option<int> {
    if b[0] == Piece::Empty {
        Some(0)
    } else if b[2] == Piece::Empty {
        Some(2)
    } else if b[6] == Piece::Empty {
        Some(6)
    } else if b[8] == Piece::Empty {
        Some(8)
    } else {
        None
    }
}

/// Where the computer plays: the first cell where X wins; else the first
/// cell where O would win; else the first empty corner; else the centre if
/// empty; else the first empty cell from 1 on; nowhere if the board is full.
pub open spec fn computer_choice(b: Seq<Piece>) -> Option<int> {
    if first_win_from(b, Piece::X, 0) is Some {
        first_win_from(b, Piece::X, 0)
    } else if first_win_from(b, Piece::O, 0) is Some {
        first_win_from(b, Piece::O, 0)
    } else if corner_open(b) {
        first_open_corner(b)
    } else if b[4] == Piece::Empty {
        Some(4)
    } else {
        first_empty_from(b, 1)
    }
}

/// The board after the computer's move.
pub open spec fn after_computer_move(b: Seq<Piece>) -> Seq<Piece> {
    match computer_choice(b) {
        Some(i) => b.update(i, Piece::X),
        None => b,
    }
}

/// The board after the player asks for cell `i`: if it is empty, the
/// player's O goes there and the computer answers; otherwise nothing changes.
pub open spec fn after_player_move(b: Seq<Piece>, i: int) -> Seq<Piece> {
    if b[i] == Piece::Empty {
        after_computer_move(b.update(i, Piece::O))
    } else {
        b
    }
}

/// How a cell is written: "X , ", "O , " or " , ".
#[verifier::opaque]
pub open spec fn piece_text(p: Piece) -> Seq<char> {
    match p {
        Piece::X => "X , "@,
        Piece::O => "O , "@,
        Piece::Empty => " , "@,
    }
}

/// The cells of `b` written one after the other.
#[verifier::opaque]
pub open spec fn cells_text(b: Seq<Piece>) -> Seq<char>
    decreases b.len(),
{
    if b.len() == 0 {
        Seq::empty()
    } else {
        cells_text(b.drop_last()) + piece_text(b.last())
    }
}

/// The board written out: "[" then its cells, then "]".
pub open spec fn board_text(b: Seq<Piece>) -> Seq<char> {
    "["@ + cells_text(b) + "]"@
}

/// What the player is told: won, lost, or to move.
pub open spec fn status_text(b: Seq<Piece>) -> Seq<char> {
    if winner(b) == Piece::O {
        "You won!"@
    } else if winner(b) == Piece::X {
        "You lost!"@
    } else {
        "Your move."@
    }
}

/// The reply that reports board `b` under number `id`.
pub open spec fn json_text(id: nat, b: Seq<Piece>) -> Seq<char> {
    "{id: "@ + decimal(id) + ", game: \""@ + board_text(b) + "\", status: \""@ + status_text(b) + "\"}"@
}


/// Line `k` passes through cell `i`.
pub open spec fn on_line(k: int, i: int) -> bool {
    let (a, b, c) = line(k);
    i == a || i == b || i == c
}

/// `p` can win in cell `i` exactly when `p` is a real piece, cell `i` is
/// empty, and `p` placed there fills a whole line through `i`.
pub proof fn lemma_wins_at_fills_a_line(b: Seq<Piece>, p: Piece, i: int)
    requires
        b.len() == 9,
        0 <= i < 9,
    ensures
        wins_at(b, p, i) <==> (p != Piece::Empty && b[i] == Piece::Empty && exists|k: int|
            0 <= k < 8 && on_line(k, i) && #[trigger] line_of(b.update(i, p), k, p)),
{
    let c = b.update(i, p);
    if p != Piece::Empty && b[i] == Piece::Empty {
        if wins_at(b, p, i) {
            if row_wins(b, p, i) {
                assert(line_of(c, i / 3, p));
            } else if column_wins(b, p, i) {
                assert(line_of(c, 3 + i % 3, p));
            } else if (i == 0 || i == 4 || i == 8) && down_diag_open(b, p) {
                assert(line_of(c, 6, p));
            } else {
                assert(line_of(c, 7, p));
            }
        }
        if exists|k: int| 0 <= k < 8 && on_line(k, i) && #[trigger] line_of(c, k, p) {
            let k = choose|k: int| 0 <= k < 8 && on_line(k, i) && #[trigger] line_of(c, k, p);
            assert(wins_at(b, p, i));
        }
    }
}

/// The winner, when there is one, holds a full line; and there is one
/// whenever some real piece holds a full line.
pub proof fn lemma_winner_holds_a_line(b: Seq<Piece>)
    requires
        b.len() == 9,
    ensures
        winner(b) != Piece::Empty ==> has_line(b, winner(b)),
        (has_line(b, Piece::X) || has_line(b, Piece::O)) ==> winner(b) != Piece::Empty,
{
    if three_same(b, 0, 1, 2) {
        assert(line_of(b, 0, winner(b)));
    } else if three_same(b, 0, 3, 6) {
        assert(line_of(b, 3, winner(b)));
    } else if three_same(b, 0, 4, 8) {
        assert(line_of(b, 6, winner(b)));
    } else if three_same(b, 3, 4, 5) {
        assert(line_of(b, 1, winner(b)));
    } else if three_same(b, 6, 7, 8) {
        assert(line_of(b, 2, winner(b)));
    } else if three_same(b, 1, 4, 7) {
        assert(line_of(b, 4, winner(b)));
    } else if three_same(b, 2, 5, 8) {
        assert(line_of(b, 5, winner(b)));
    } else if three_same(b, 6, 4, 2) {
        assert(line_of(b, 7, winner(b)));
    }
}

proof fn lemma_first_win_from(b: Seq<Piece>, p: Piece, k: int)
    requires
        b.len() == 9,
        0 <= k <= 9,
    ensures
        first_win_from(b, p, k) matches Some(i) ==> k <= i < 9 && wins_at(b, p, i)
            && forall|m: int| k <= m < i ==> !wins_at(b, p, m),
        first_win_from(b, p, k) is None ==> forall|i: int| k <= i < 9 ==> !wins_at(b, p, i),
    decreases 9 - k,
{
    if k < 9 {
        lemma_first_win_from(b, p, k + 1);
    }
}

proof fn lemma_first_empty_from(b: Seq<Piece>, k: int)
    requires
        b.len() == 9,
        0 <= k <= 9,
    ensures
        first_empty_from(b, k) matches Some(i) ==> k <= i < 9 && b[i] == Piece::Empty
            && forall|m: int| k <= m < i ==> b[m] != Piece::Empty,
        first_empty_from(b, k) is None ==> forall|i: int| k <= i < 9 ==> b[i] != Piece::Empty,
    decreases 9 - k,
{
    if k < 9 {
        lemma_first_empty_from(b, k + 1);
    }
}

/// The computer always plays in an empty cell, and plays whenever the board
/// has one: its move puts exactly one X on the board, in a cell that was
/// empty; on a full board it changes nothing.
pub proof fn lemma_computer_fills_one_empty_cell(b: Seq<Piece>)
    requires
        b.len() == 9,
    ensures
        (exists|i: int| 0 <= i < 9 && b[i] == Piece::Empty) ==> exists|i: int|
            0 <= i < 9 && b[i] == Piece::Empty && after_computer_move(b) == #[trigger] b.update(i, Piece::X),
        (forall|i: int| 0 <= i < 9 ==> b[i] != Piece::Empty) ==> after_computer_move(b) == b,
{
    lemma_first_win_from(b, Piece::X, 0);
    lemma_first_win_from(b, Piece::O, 0);
    lemma_first_empty_from(b, 1);
    match computer_choice(b) {
        Some(i) => {
            assert(b[i] == Piece::Empty);
            assert(after_computer_move(b) == b.update(i, Piece::X));
        },
        None => {
            assert(forall|i: int| 0 <= i < 9 ==> b[i] != Piece::Empty);
        },
    }
}

/// When the computer can complete a line, it does: after its move X holds a full line.
pub proof fn lemma_computer_takes_a_win(b: Seq<Piece>, i: int)
    requires
        b.len() == 9,
        0 <= i < 9,
        wins_at(b, Piece::X, i),
    ensures
        has_line(after_computer_move(b), Piece::X),
{
    lemma_first_win_from(b, Piece::X, 0);
    let j = computer_choice(b)->0;
    lemma_wins_at_fills_a_line(b, Piece::X, j);
}

/// When the computer cannot win but the player could complete a line in
/// some cell, the computer puts its X in the first such cell.
pub proof fn lemma_computer_blocks(b: Seq<Piece>, i: int)
    requires
        b.len() == 9,
        0 <= i < 9,
        forall|j: int| 0 <= j < 9 ==> !wins_at(b, Piece::X, j),
        wins_at(b, Piece::O, i),
    ensures
        exists|j: int| 0 <= j <= i && wins_at(b, Piece::O, j) && after_computer_move(b) == #[trigger] b.update(j, Piece::X),
{
    lemma_first_win_from(b, Piece::X, 0);
    lemma_first_win_from(b, Piece::O, 0);
    let j = computer_choice(b)->0;
    assert(after_computer_move(b) == b.update(j, Piece::X));
}


/// Moves never overwrite: after the player asks for cell `i`, every cell
/// that held a piece still holds it, and if cell `i` was empty it now holds
/// the player's O.
pub proof fn lemma_moves_never_overwrite(b: Seq<Piece>, i: int)
    requires
        b.len() == 9,
        0 <= i < 9,
    ensures
        forall|j: int| 0 <= j < 9 && b[j] != Piece::Empty ==> #[trigger] after_player_move(b, i)[j] == b[j],
        b[i] == Piece::Empty ==> after_player_move(b, i)[i] == Piece::O,
        after_player_move(b, i).len() == 9,
{
    if b[i] == Piece::Empty {
        let c = b.update(i, Piece::O);
        lemma_computer_fills_one_empty_cell(c);
        if exists|k: int| 0 <= k < 9 && c[k] == Piece::Empty {
            let k = choose|k: int| 0 <= k < 9 && c[k] == Piece::Empty && after_computer_move(c) == #[trigger] c.update(k, Piece::X);
            assert(k != i);
        }
    }
}


/// A cell where `p` can win does win once `p` is placed there: the board
/// then has a full line of `p`; and if the board had no winner before, `p`
/// is now the winner.
pub proof fn lemma_winning_cell_wins(b: Seq<Piece>, p: Piece, i: int)
    requires
        b.len() == 9,
        0 <= i < 9,
        wins_at(b, p, i),
    ensures
        has_line(b.update(i, p), p),
        winner(b) == Piece::Empty ==> winner(b.update(i, p)) == p,
{
    let c = b.update(i, p);
    lemma_wins_at_fills_a_line(b, p, i);
    lemma_winner_holds_a_line(c);
    if winner(b) == Piece::Empty {
        lemma_winner_holds_a_line(b);
        // every full line of `c` passes through `i`, so it is a line of `p`
        assert forall|k: int, q: Piece| 0 <= k < 8 && q != Piece::Empty && #[trigger] line_of(c, k, q)
            implies on_line(k, i) && q == p by {
            if !on_line(k, i) {
                let (x, y, z) = line(k);
                assert(b[x] == c[x] && b[y] == c[y] && b[z] == c[z]);
                assert(line_of(b, k, q));
                assert(q == Piece::X || q == Piece::O);
            } else {
                let (x, y, z) = line(k);
                assert(c[i] == p);
            }
        }
        if three_same(c, 0, 1, 2) { assert(line_of(c, 0, c[0])); }
        else if three_same(c, 0, 3, 6) { assert(line_of(c, 3, c[0])); }
        else if three_same(c, 0, 4, 8) { assert(line_of(c, 6, c[0])); }
        else if three_same(c, 3, 4, 5) { assert(line_of(c, 1, c[3])); }
        else if three_same(c, 6, 7, 8) { assert(line_of(c, 2, c[6])); }
        else if three_same(c, 1, 4, 7) { assert(line_of(c, 4, c[1])); }
        else if three_same(c, 2, 5, 8) { assert(line_of(c, 5, c[2])); }
        else if three_same(c, 6, 4, 2) { assert(line_of(c, 7, c[2])); }
    }
}


/// What the player is told follows the full lines on the board: when X
/// holds a full line and O none, "You lost!"; when O holds one and X none,
/// "You won!"; when no piece holds one, "Your move.".
pub proof fn lemma_status_follows_lines(b: Seq<Piece>)
    requires
        b.len() == 9,
    ensures
        has_line(b, Piece::X) && !has_line(b, Piece::O) ==> status_text(b) == "You lost!"@,
        has_line(b, Piece::O) && !has_line(b, Piece::X) ==> status_text(b) == "You won!"@,
        !has_line(b, Piece::O) && !has_line(b, Piece::X) ==> status_text(b) == "Your move."@,
{
    lemma_winner_holds_a_line(b);
}

/// The text of each cell: "X , " for X, "O , " for O, " , " when empty.
pub proof fn lemma_piece_text(p: Piece)
    ensures
        p == Piece::X ==> piece_text(p) == "X , "@,
        p == Piece::O ==> piece_text(p) == "O , "@,
        p == Piece::Empty ==> piece_text(p) == " , "@,
{
    reveal(piece_text);
}

/// One more cell of the board adds its text at the end.
proof fn lemma_cells_text_step(b: Seq<Piece>, k: int)
    requires
        0 <= k < b.len(),
    ensures
        cells_text(b.take(k + 1)) == cells_text(b.take(k)) + piece_text(b[k]),
{
    reveal(cells_text);
    assert(b.take(k + 1).drop_last() =~= b.take(k));
}

/// The board text shows the cells in order: "[", then the text of cell 0,
/// of cell 1, and so on to cell 8, then "]".
pub proof fn lemma_board_text_in_cell_order(b: Seq<Piece>)
    requires
        b.len() == 9,
    ensures
        board_text(b) == "["@ + (piece_text(b[0]) + piece_text(b[1]) + piece_text(b[2]) + piece_text(b[3])
            + piece_text(b[4]) + piece_text(b[5]) + piece_text(b[6]) + piece_text(b[7]) + piece_text(b[8]))
            + "]"@,
{
    let p0 = piece_text(b[0]);
    let p1 = piece_text(b[1]);
    let p2 = piece_text(b[2]);
    let p3 = piece_text(b[3]);
    let p4 = piece_text(b[4]);
    let p5 = piece_text(b[5]);
    let p6 = piece_text(b[6]);
    let p7 = piece_text(b[7]);
    let p8 = piece_text(b[8]);
    let q1 = p0;
    let q2 = q1 + p1;
    let q3 = q2 + p2;
    let q4 = q3 + p3;
    let q5 = q4 + p4;
    let q6 = q5 + p5;
    let q7 = q6 + p6;
    let q8 = q7 + p7;
    let q9 = q8 + p8;
    assert(cells_text(b.take(1)) == q1) by {
        assert(b.take(0) =~= Seq::<Piece>::empty());
        reveal(cells_text);
        lemma_cells_text_step(b, 0);
        assert(Seq::<char>::empty() + p0 =~= p0);
    }
    assert(cells_text(b.take(2)) == q2) by { lemma_cells_text_step(b, 1); }
    assert(cells_text(b.take(3)) == q3) by { lemma_cells_text_step(b, 2); }
    assert(cells_text(b.take(4)) == q4) by { lemma_cells_text_step(b, 3); }
    assert(cells_text(b.take(5)) == q5) by { lemma_cells_text_step(b, 4); }
    assert(cells_text(b.take(6)) == q6) by { lemma_cells_text_step(b, 5); }
    assert(cells_text(b.take(7)) == q7) by { lemma_cells_text_step(b, 6); }
    assert(cells_text(b.take(8)) == q8) by { lemma_cells_text_step(b, 7); }
    assert(cells_text(b) == q9) by {
        lemma_cells_text_step(b, 8);
        assert(b.take(9) =~= b);
    }
}

/// The computer always answers: when the player asks for an empty cell `i`
/// and another cell is empty, the board afterwards is the old one with O in
/// cell `i` and X in exactly one other cell that was empty; when no other
/// cell is empty, only the O is added; a taken cell changes nothing.
pub proof fn lemma_computer_answers_every_move(b: Seq<Piece>, i: int)
    requires
        b.len() == 9,
        0 <= i < 9,
    ensures
        b[i] == Piece::Empty && (exists|j: int| 0 <= j < 9 && j != i && b[j] == Piece::Empty) ==> exists|j: int|
            0 <= j < 9 && j != i && b[j] == Piece::Empty && after_player_move(b, i) == #[trigger] b.update(i, Piece::O).update(
                j,
                Piece::X,
            ),
        b[i] == Piece::Empty && (forall|j: int| 0 <= j < 9 && j != i ==> b[j] != Piece::Empty) ==> after_player_move(b, i)
            == b.update(i, Piece::O),
        b[i] != Piece::Empty ==> after_player_move(b, i) == b,
{
    if b[i] == Piece::Empty {
        let c = b.update(i, Piece::O);
        lemma_computer_fills_one_empty_cell(c);
        if exists|j: int| 0 <= j < 9 && j != i && b[j] == Piece::Empty {
            let j0 = choose|j: int| 0 <= j < 9 && j != i && b[j] == Piece::Empty;
            assert(c[j0] == Piece::Empty);
            let j = choose|j: int| 0 <= j < 9 && c[j] == Piece::Empty && after_computer_move(c) == #[trigger] c.update(j, Piece::X);
            assert(j != i);
            assert(b[j] == Piece::Empty);
        } else {
            assert forall|k: int| 0 <= k < 9 implies c[k] != Piece::Empty by {
                if k != i {
                    assert(b[k] != Piece::Empty);
                }
            }
        }
    }
}


/// When neither piece can complete a line anywhere, the computer takes the
/// first empty corner in the order 0, 2, 6, 8; with all corners taken, the
/// centre if empty; otherwise the first empty cell from 1 on.
pub proof fn lemma_computer_fallbacks(b: Seq<Piece>)
    requires
        b.len() == 9,
        forall|j: int| 0 <= j < 9 ==> !wins_at(b, Piece::X, j) && !wins_at(b, Piece::O, j),
    ensures
        b[0] == Piece::Empty ==> after_computer_move(b) == b.update(0, Piece::X),
        b[0] != Piece::Empty && b[2] == Piece::Empty ==> after_computer_move(b) == b.update(2, Piece::X),
        b[0] != Piece::Empty && b[2] != Piece::Empty && b[6] == Piece::Empty ==> after_computer_move(b)
            == b.update(6, Piece::X),
        b[0] != Piece::Empty && b[2] != Piece::Empty && b[6] != Piece::Empty && b[8] == Piece::Empty
            ==> after_computer_move(b) == b.update(8, Piece::X),
        b[0] != Piece::Empty && b[2] != Piece::Empty && b[6] != Piece::Empty && b[8] != Piece::Empty
            && b[4] == Piece::Empty ==> after_computer_move(b) == b.update(4, Piece::X),
        b[0] != Piece::Empty && b[2] != Piece::Empty && b[6] != Piece::Empty && b[8] != Piece::Empty
            && b[4] != Piece::Empty ==> forall|k: int| 1 <= k < 9 && b[k] == Piece::Empty
            && (forall|m: int| 1 <= m < k ==> b[m] != Piece::Empty) ==> after_computer_move(b) == #[trigger] b.update(
            k,
            Piece::X,
        ),
{
    lemma_first_win_from(b, Piece::X, 0);
    lemma_first_win_from(b, Piece::O, 0);
    lemma_first_empty_from(b, 1);
    if b[0] != Piece::Empty && b[2] != Piece::Empty && b[6] != Piece::Empty && b[8] != Piece::Empty
        && b[4] != Piece::Empty {
        assert forall|k: int| 1 <= k < 9 && b[k] == Piece::Empty && (forall|m: int| 1 <= m < k ==> b[m]
            != Piece::Empty) implies after_computer_move(b) == #[trigger] b.update(k, Piece::X) by {
            let f = first_empty_from(b, 1);
            assert(f is Some);
            let i = f->0;
            assert(b[i] == Piece::Empty);
            assert(i == k);
        }
    }
}

/// A tic-tac-toe board.
#[derive(Debug)]
pub struct TicTacToe {
    board: [Piece; 9],
}

impl View for TicTacToe {
    type V = Seq<Piece>;

    closed spec fn view(&self) -> Seq<Piece> {
        self.board@
    }
}

impl TicTacToe {
    /// A board has nine cells.
    pub proof fn lemma_nine_cells(&self)
        ensures
            self@.len() == 9,
    {
    }

    /// On any board, a cell where `can_win` holds for `p` wins once `p` is
    /// set there: `p` then holds a full line, and if `did_win` found no
    /// winner before, it finds `p` after.
    pub proof fn lemma_can_win_then_wins(&self, p: Piece, index: int)
        requires
            0 <= index < 9,
            wins_at(self@, p, index),
        ensures
            has_line(self@.update(index, p), p),
            winner(self@) == Piece::Empty ==> winner(self@.update(index, p)) == p,
    {
        lemma_winning_cell_wins(self@, p, index);
    }

    /// An empty board.
    pub fn new() -> (t: Self)
        ensures
            t@ == Seq::new(9, |i: int| Piece::Empty),
    {
        let t = Self { board: [Piece::Empty, Piece::Empty, Piece::Empty, Piece::Empty, Piece::Empty, Piece::Empty, Piece::Empty, Piece::Empty, Piece::Empty] };
        assert(t@ =~= Seq::new(9, |i: int| Piece::Empty));
        t
    }

    /// The player asks for cell `index`: if it is empty the player's O goes
    /// there and the computer answers; otherwise nothing happens.
    pub fn player_move(&mut self, index: usize)
        requires
            index < 9,
        ensures
            final(self)@ == after_player_move(old(self)@, index as int),
    {
        if self.board[index] == Piece::Empty {
            self.board[index] = PLAYER_PIECE;
            self.computer_move();
        }
    }

    /// The computer places its X where `computer_choice` says.
    pub fn computer_move(&mut self)
        ensures
            final(self)@ == after_computer_move(old(self)@),
            final(self)@.len() == 9,
            (exists|i: int| 0 <= i < 9 && old(self)@[i] == Piece::Empty) ==> exists|i: int|
                0 <= i < 9 && old(self)@[i] == Piece::Empty && final(self)@ == #[trigger] old(self)@.update(i, Piece::X),
            (forall|i: int| 0 <= i < 9 ==> old(self)@[i] != Piece::Empty) ==> final(self)@ == old(self)@,
    {
        let ghost b = self@;
        proof {
            lemma_computer_fills_one_empty_cell(b);
        }
        let mut index: usize = 0;
        #[verifier::loop_isolation(false)]
        while index < 9
            invariant
                index <= 9,
                self@ == b,
                b.len() == 9,
                first_win_from(b, Piece::X, 0) == first_win_from(b, Piece::X, index as int),
            decreases 9 - index,
        {
            if self.can_win(COMPUTER_PIECE, index) {
                assert(first_win_from(b, Piece::X, index as int) == Some(index as int));
                self.board[index] = COMPUTER_PIECE;
                assert(self@ =~= b.update(index as int, Piece::X));
                return;
            }
            index = index + 1;
        }
        let mut index: usize = 0;
        #[verifier::loop_isolation(false)]
        while index < 9
            invariant
                index <= 9,
                self@ == b,
                b.len() == 9,
                first_win_from(b, Piece::X, 0) is None,
                first_win_from(b, Piece::O, 0) == first_win_from(b, Piece::O, index as int),
            decreases 9 - index,
        {
            if self.can_win(PLAYER_PIECE, index) {
                assert(first_win_from(b, Piece::O, index as int) == Some(index as int));
                self.board[index] = COMPUTER_PIECE;
                assert(self@ =~= b.update(index as int, Piece::X));
                return;
            }
            index = index + 1;
        }
        if self.corner_is_open() {
            self.go_in_arbitrary_corner(COMPUTER_PIECE);
            return;
        }
        if self.board[4] == Piece::Empty {
            self.board[4] = COMPUTER_PIECE;
            return;
        }
        self.go_in_first_empty();
    }

    /// The computer's X goes in the first empty cell from 1 on, if any.
    pub fn go_in_first_empty(&mut self)
        ensures
            final(self)@ == match first_empty_from(old(self)@, 1) {
                Some(i) => old(self)@.update(i, Piece::X),
                None => old(self)@,
            },
            final(self)@.len() == 9,
            final(self)@[0] == old(self)@[0],
    {
        proof {
            lemma_first_empty_from(self@, 1);
        }
        let ghost b = self@;
        let mut index: usize = 1;
        #[verifier::loop_isolation(false)]
        while index < 9
            invariant
                1 <= index <= 9,
                self@ == b,
                b.len() == 9,
                first_empty_from(b, 1) == first_empty_from(b, index as int),
            decreases 9 - index,
        {
            if self.board[index] == Piece::Empty {
                assert(first_empty_from(b, index as int) == Some(index as int));
                self.board[index] = COMPUTER_PIECE;
                assert(self@ =~= b.update(index as int, Piece::X));
                return;
            }
            index = index + 1;
        }
    }

    /// Whether some corner is empty.
    pub fn corner_is_open(&self) -> (open: bool)
        ensures
            open == corner_open(self@),
    {
        self.board[0] == Piece::Empty || self.board[2] == Piece::Empty || self.board[6] == Piece::Empty
            || self.board[8] == Piece::Empty
    }

    /// `my_piece` goes in the first empty corner (0, 2, 6, 8), if any.
    pub fn go_in_arbitrary_corner(&mut self, my_piece: Piece)
        ensures
            final(self)@ == match first_open_corner(old(self)@) {
                Some(i) => old(self)@.update(i, my_piece),
                None => old(self)@,
            },
    {
        if self.board[0] == Piece::Empty {
            self.board[0] = my_piece;
        } else if self.board[2] == Piece::Empty {
            self.board[2] = my_piece;
        } else if self.board[6] == Piece::Empty {
            self.board[6] = my_piece;
        } else if self.board[8] == Piece::Empty {
            self.board[8] = my_piece;
        }
    }

    /// Whether `my_piece` placed in cell `index` would complete a line.
    pub fn can_win(&self, my_piece: Piece, index: usize) -> (wins: bool)
        requires
            my_piece != Piece::Empty ==> index < 9,
        ensures
            wins == wins_at(self@, my_piece, index as int),
    {
        if my_piece == Piece::Empty || self.board[index] != Piece::Empty {
            return false;
        }
        let row_can_win = match index % 3 {
            0 => self.board[index + 1] == my_piece && self.board[index + 2] == my_piece,
            1 => self.board[index - 1] == my_piece && self.board[index + 1] == my_piece,
            _ => self.board[index - 2] == my_piece && self.board[index - 1] == my_piece,
        };
        let col_can_win = match index / 3 {
            0 => self.board[index + 3] == my_piece && self.board[index + 6] == my_piece,
            1 => self.board[index - 3] == my_piece && self.board[index + 3] == my_piece,
            _ => self.board[index - 6] == my_piece && self.board[index - 3] == my_piece,
        };
        let index_on_down_diag = index == 0 || index == 4 || index == 8;
        let index_on_up_diag = index == 6 || index == 4 || index == 2;
        row_can_win || col_can_win || (index_on_down_diag && self.can_win_down_diag(my_piece)) || (
        index_on_up_diag && self.can_win_up_diag(my_piece))
    }

    /// Whether cells `index_1`, `index_2`, `index_3` hold the same piece, not `Empty`.
    pub fn three_in_a_row(&self, index_1: usize, index_2: usize, index_3: usize) -> (same: bool)
        requires
            index_1 < 9,
            self@[index_1 as int] != Piece::Empty ==> index_2 < 9,
            self@[index_1 as int] != Piece::Empty && self@[index_1 as int] == self@[index_2 as int] ==> index_3 < 9,
        ensures
            same == three_same(self@, index_1 as int, index_2 as int, index_3 as int),
    {
        Piece::Empty != self.board[index_1] && self.board[index_1] == self.board[index_2]
            && self.board[index_2] == self.board[index_3]
    }

    /// The winner of the board, `Empty` if none.
    pub fn did_win(&self) -> (w: Piece)
        ensures
            w == winner(self@),
    {
        if self.three_in_a_row(0, 1, 2) || self.three_in_a_row(0, 3, 6) || self.three_in_a_row(0, 4, 8) {
            self.board[0]
        } else if self.three_in_a_row(3, 4, 5) {
            self.board[3]
        } else if self.three_in_a_row(6, 7, 8) {
            self.board[6]
        } else if self.three_in_a_row(1, 4, 7) {
            self.board[1]
        } else if self.three_in_a_row(2, 5, 8) || self.three_in_a_row(6, 4, 2) {
            self.board[2]
        } else {
            Piece::Empty
        }
    }

    /// Puts `piece` in cell `index`, whatever was there.
    pub fn set_piece(&mut self, index: usize, piece: Piece)
        requires
            index < 9,
        ensures
            final(self)@ == old(self)@.update(index as int, piece),
    {
        self.board[index] = piece;
    }

    /// Whether cell `index` holds `piece`.
    pub fn has_piece(&self, piece: Piece, index: usize) -> (has: bool)
        requires
            index < 9,
        ensures
            has == (self@[index as int] == piece),
    {
        self.board[index] == piece
    }

    /// Whether `my_piece` can complete the diagonal 0, 4, 8 with one more piece.
    pub fn can_win_down_diag(&self, my_piece: Piece) -> (open: bool)
        ensures
            open == down_diag_open(self@, my_piece),
    {
        let a = self.board[0];
        let b = self.board[4];
        let c = self.board[8];
        (a == Piece::Empty && b == my_piece && c == my_piece) || (a == my_piece && b == Piece::Empty && c
            == my_piece) || (a == my_piece && b == my_piece && c == Piece::Empty)
    }

    /// Whether `my_piece` can complete the diagonal 2, 4, 6 with one more piece.
    pub fn can_win_up_diag(&self, my_piece: Piece) -> (open: bool)
        ensures
            open == up_diag_open(self@, my_piece),
    {
        let a = self.board[2];
        let b = self.board[4];
        let c = self.board[6];
        (a == Piece::Empty && b == my_piece && c == my_piece) || (a == my_piece && b == Piece::Empty && c
            == my_piece) || (a == my_piece && b == my_piece && c == Piece::Empty)
    }

    /// The board written out, e.g. "[X , O ,  ,  ,  ,  ,  ,  ,  , ]".
    pub fn to_string(&self) -> (text: String)
        ensures
            text@ == board_text(self@),
    {
        let mut s = String::new();
        s.append("[");
        proof {
            reveal(cells_text);
            assert(self@.take(0) =~= Seq::<Piece>::empty());
        }
        let mut i: usize = 0;
        while i < 9
            invariant
                i <= 9,
                self@.len() == 9,
                s@ == "["@ + cells_text(self@.take(i as int)),
            decreases 9 - i,
        {
            let t: &str = match self.board[i] {
                Piece::X => "X , ",
                Piece::O => "O , ",
                Piece::Empty => " , ",
            };
            s.append(t);
            proof {
                reveal(piece_text);
                reveal(cells_text);
            }
            assert(self@.take(i + 1).drop_last() =~= self@.take(i as int));
            assert(s@ =~= "["@ + cells_text(self@.take(i + 1)));
            i = i + 1;
        }
        s.append("]");
        assert(self@.take(9) =~= self@);
        s
    }
}

/// The open tic-tac-toe games, each under the number it was opened with.
#[derive(Debug)]
pub struct TicTacToeGameMap {
    id: usize,
    games: HashMap<usize, TicTacToe>,
}

impl TicTacToeGameMap {
    /// The number given to the most recently opened game (0 before any).
    pub closed spec fn spec_last_id(&self) -> usize {
        self.id
    }

    /// The boards of the open games by number.
    pub closed spec fn boards(&self) -> Map<usize, Seq<Piece>> {
        self.games@.map_values(|g: TicTacToe| g@)
    }

    /// Every open game has a number from 1 to the last one given.
    pub closed spec fn wf(&self) -> bool {
        forall|k: usize| #[trigger] self.games@.contains_key(k) ==> 1 <= k <= self.id
    }

    /// No game open yet.
    pub fn new() -> (m: TicTacToeGameMap)
        ensures
            m.wf(),
            m.last_id() == 0,
            m.boards() == Map::<usize, Seq<Piece>>::empty(),
    {
        let m = TicTacToeGameMap { id: 0, games: HashMap::new() };
        assert(m.boards() =~= Map::<usize, Seq<Piece>>::empty());
        m
    }

    /// The number given to the most recently opened game (0 before any).
    #[verifier::when_used_as_spec(spec_last_id)]
    pub fn last_id(&self) -> (id: usize)
        ensures
            id == self.spec_last_id(),
    {
        self.id
    }

    /// Whether a game is open under number `id`.
    pub fn has_game(&self, id: usize) -> (open: bool)
        ensures
            open == self.boards().contains_key(id),
    {
        broadcast use vstd::std_specs::hash::group_hash_axioms;
        self.games.contains_key(&id)
    }

    /// The player of game `id` asks for cell `spot`; the reply reports the
    /// game, or is "{}" when no game has that number.
    pub fn move_game(&mut self, id: usize, spot: usize) -> (reply: String)
        requires
            old(self).wf(),
            old(self).boards().contains_key(id) ==> spot < 9,
        ensures
            final(self).wf(),
            final(self).last_id() == old(self).last_id(),
            old(self).boards().contains_key(id) ==> {
                let b = after_player_move(old(self).boards()[id], spot as int);
                &&& final(self).boards() == old(self).boards().insert(id, b)
                &&& reply@ == json_text(id as nat, b)
            },
            !old(self).boards().contains_key(id) ==> {
                &&& final(self).boards() == old(self).boards()
                &&& reply@ == "{}"@
            },
    {
        broadcast use vstd::std_specs::hash::group_hash_axioms;
        let ghost before = self.boards();
        match self.games.remove(&id) {
            Some(mut g) => {
                g.player_move(spot);
                let reply = Self::to_json(id, &g);
                self.games.insert(id, g);
                assert(self.boards() =~= before.insert(id, after_player_move(before[id], spot as int)));
                reply
            },
            None => {
                assert(self.boards() =~= before);
                let mut reply = String::new();
                reply.append("{}");
                reply
            },
        }
    }

    /// The reply that reports `game` under number `id`.
    pub fn to_json(id: usize, game: &TicTacToe) -> (reply: String)
        ensures
            reply@ == json_text(id as nat, game@),
    {
        let mut s = String::new();
        s.append("{id: ");
        push_decimal(&mut s, id);
        s.append(", game: \"");
        let board = game.to_string();
        s.append(board.as_str());
        s.append("\", status: \"");
        let status: &str = match game.did_win() {
            Piece::O => "You won!",
            Piece::X => "You lost!",
            _ => "Your move.",
        };
        s.append(status);
        s.append("\"}");
        s
    }

    /// Closes game `id`, if open; the reply is empty.
    pub fn finish_game(&mut self, id: usize) -> (reply: String)
        requires
            old(self).wf(),
        ensures
            final(self).wf(),
            final(self).last_id() == old(self).last_id(),
            final(self).boards() == old(self).boards().remove(id),
            reply@ == Seq::<char>::empty(),
    {
        broadcast use vstd::std_specs::hash::group_hash_axioms;
        let ghost before = self.boards();
        self.games.remove(&id);
        assert(self.boards() =~= before.remove(id));
        String::new()
    }

    /// Opens a game with an empty board under the next number; the reply reports it.
    pub fn create_game(&mut self) -> (reply: String)
        requires
            old(self).wf(),
            old(self).last_id() < usize::MAX,
        ensures
            final(self).wf(),
            final(self).last_id() == old(self).last_id() + 1,
            !old(self).boards().contains_key(final(self).last_id()),
            final(self).boards() == old(self).boards().insert(
                final(self).last_id(),
                Seq::new(9, |i: int| Piece::Empty),
            ),
            reply@ == json_text(final(self).last_id() as nat, Seq::new(9, |i: int| Piece::Empty)),
    {
        broadcast use vstd::std_specs::hash::group_hash_axioms;
        let ghost before = self.boards();
        self.id = self.id + 1;
        let g = TicTacToe::new();
        let reply = Self::to_json(self.id, &g);
        let id = self.id;
        self.games.insert(id, g);
        assert(self.boards() =~= before.insert(id, Seq::new(9, |i: int| Piece::Empty)));
        reply
    }
}

} // verus!
