//! Reading what a request asks for. The request line is "METHOD PATH ...";
//! the path is cut at '/' into its non-empty segments, which name a game,
//! an action and the numbers the action needs.

use vstd::prelude::*;
use crate::text::{decimal, digit_char};

verus! {

/// What a blackjack request asks the table to do.
#[derive(Debug, Clone, Copy, PartialEq, Eq, Structural)]
pub enum BlackjackAction {
    Hit,
    Stand,
    Finish,
}

/// What a tic-tac-toe request asks the game to do.
#[derive(Debug, Clone, Copy, PartialEq, Eq, Structural)]
pub enum TicTacToeAction {
    Move,
    Finish,
}

/// What a request asks for.
#[derive(Debug, Clone, Copy, PartialEq, Eq, Structural)]
pub enum Request {
    /// The bare path: the reply names the two games.
    Index,
    /// "/blackjack": open a table.
    NewBlackjack,
    /// "/blackjack/ACTION/ID".
    Blackjack { action: BlackjackAction, id: usize },
    /// "/tictactoe": open a game.
    NewTicTacToe,
    /// "/tictactoe/ACTION/SPOT/ID".
    TicTacToe { command: TicTacToeAction, spot: usize, id: usize },
    /// Any other first segment: no reply at all.
    Unknown,
}


/// A decimal digit character reads back as the digit it writes.
proof fn lemma_digit_char_reads_back(d: nat)
    requires
        d < 10,
    ensures
        digit_of(digit_char(d)) == Some(d),
{
}

/// The decimal notation of `n` is a non-empty string of digits that writes `n`.
proof fn lemma_decimal_digits(n: nat)
    ensures
        decimal(n).len() > 0,
        all_digits(decimal(n)),
        digits_value(decimal(n)) == n,
    decreases n,
{
    if n < 10 {
        lemma_digit_char_reads_back(n);
        assert(decimal(n).drop_last() =~= Seq::<char>::empty());
        assert(digits_value(Seq::<char>::empty()) == 0);
        assert(digit_of(decimal(n)[0]) is Some);
        assert(digits_value(decimal(n)) == digits_value(decimal(n).drop_last()) * 10 + n);
    } else {
        lemma_decimal_digits(n / 10);
        lemma_digit_char_reads_back(n % 10);
        let s = decimal(n);
        assert(s.drop_last() =~= decimal(n / 10));
        assert(s.last() == digit_char(n % 10));
        assert(digits_value(s) == digits_value(decimal(n / 10)) * 10 + n % 10);
        assert forall|i: int| 0 <= i < s.len() implies #[trigger] digit_of(s[i]) is Some by {
            if i < s.len() - 1 {
                assert(s[i] == decimal(n / 10)[i]);
            }
        }
    }
}

/// A number written in a reply reads back as itself: parsing the decimal
/// notation of `n` gives `n`.
pub proof fn lemma_decimal_reads_back(n: usize)
    ensures
        parse_usize(decimal(n as nat)) == Some(n),
{
    lemma_decimal_digits(n as nat);
    let s = decimal(n as nat);
    assert(digit_of(s[0]) is Some);
    assert(s[0] != '+');
}

/// The first index from `k` on where `t` holds a space, or the length of `t`.
pub open spec fn first_space_from(t: Seq<char>, k: int) -> int
    decreases t.len() - k,
{
    if k >= t.len() {
        t.len() as int
    } else if t[k] == ' ' {
        k
    } else {
        first_space_from(t, k + 1)
    }
}

/// The second space-separated field of the request line (after the first
/// space, up to the next space or the end); none when there is no space.
pub open spec fn resource_path(t: Seq<char>) -> Option<Seq<char>> {
    let a = first_space_from(t, 0);
    if a >= t.len() {
        None
    } else {
        Some(t.subrange(a + 1, first_space_from(t, a + 1)))
    }
}

/// Cutting `p` at '/': the segments completed so far (empty ones left
/// out) and the segment still open at the end.
pub open spec fn split_state(p: Seq<char>) -> (Seq<Seq<char>>, Seq<char>)
    decreases p.len(),
{
    if p.len() == 0 {
        (Seq::empty(), Seq::empty())
    } else {
        let (done, cur) = split_state(p.drop_last());
        if p.last() == '/' {
            (if cur.len() > 0 { done.push(cur) } else { done }, Seq::empty())
        } else {
            (done, cur.push(p.last()))
        }
    }
}

/// The non-empty segments of `p` between the '/' characters, in order.
pub open spec fn path_segments(p: Seq<char>) -> Seq<Seq<char>> {
    let (done, cur) = split_state(p);
    if cur.len() > 0 {
        done.push(cur)
    } else {
        done
    }
}

/// The value of a decimal digit character.
pub open spec fn digit_of(c: char) -> Option<nat> {
    if c == '0' { Some(0) }
    else if c == '1' { Some(1) }
    else if c == '2' { Some(2) }
    else if c == '3' { Some(3) }
    else if c == '4' { Some(4) }
    else if c == '5' { Some(5) }
    else if c == '6' { Some(6) }
    else if c == '7' { Some(7) }
    else if c == '8' { Some(8) }
    else if c == '9' { Some(9) }
    else { None }
}

/// Every character of `s` is a decimal digit.
pub open spec fn all_digits(s: Seq<char>) -> bool {
    forall|i: int| 0 <= i < s.len() ==> #[trigger] digit_of(s[i]) is Some
}

/// The number that the digits of `s` write.
pub open spec fn digits_value(s: Seq<char>) -> nat
    decreases s.len(),
{
    if s.len() == 0 {
        0
    } else {
        digits_value(s.drop_last()) * 10 + digit_of(s.last()).unwrap_or(0)
    }
}

/// `s` read as an unsigned number: an optional '+', then at least one
/// decimal digit and nothing else, writing a number that fits in a `usize`.
pub open spec fn parse_usize(s: Seq<char>) -> Option<usize> {
    let d = if s.len() > 0 && s[0] == '+' { s.skip(1) } else { s };
    if d.len() > 0 && all_digits(d) && digits_value(d) <= usize::MAX {
        Some(digits_value(d) as usize)
    } else {
        None
    }
}

/// The blackjack action a segment names: "hit", "stand", anything else finishes.
pub open spec fn blackjack_action(s: Seq<char>) -> BlackjackAction {
    if s == "hit"@ {
        BlackjackAction::Hit
    } else if s == "stand"@ {
        BlackjackAction::Stand
    } else {
        BlackjackAction::Finish
    }
}

/// The tic-tac-toe action a segment names: "move", anything else finishes.
pub open spec fn tictactoe_action(s: Seq<char>) -> TicTacToeAction {
    if s == "move"@ {
        TicTacToeAction::Move
    } else {
        TicTacToeAction::Finish
    }
}

/// What the path segments `segs` ask for; none when a segment the request
/// needs is missing or a number in it does not read as one.
pub open spec fn request_of_segments(segs: Seq<Seq<char>>) -> Option<Request> {
    if segs.len() == 0 {
        Some(Request::Index)
    } else if segs[0] == "blackjack"@ {
        if segs.len() == 1 {
            Some(Request::NewBlackjack)
        } else if segs.len() >= 3 && parse_usize(segs[2]) is Some {
            Some(Request::Blackjack { action: blackjack_action(segs[1]), id: parse_usize(segs[2])->0 })
        } else {
            None
        }
    } else if segs[0] == "tictactoe"@ {
        if segs.len() == 1 {
            Some(Request::NewTicTacToe)
        } else if segs.len() >= 4 && parse_usize(segs[2]) is Some && parse_usize(segs[3]) is Some {
            Some(Request::TicTacToe {
                command: tictactoe_action(segs[1]),
                spot: parse_usize(segs[2])->0,
                id: parse_usize(segs[3])->0,
            })
        } else {
            None
        }
    } else {
        Some(Request::Unknown)
    }
}

/// What the request text `t` asks for; none when it has no path field, or
/// when the path lacks a segment or a number it needs.
pub open spec fn request_of(t: Seq<char>) -> Option<Request> {
    match resource_path(t) {
        Some(p) => request_of_segments(path_segments(p)),
        None => None,
    }
}

/// The texts of a list of segments.
pub open spec fn texts(v: Seq<Vec<char>>) -> Seq<Seq<char>> {
    v.map_values(|s: Vec<char>| s@)
}

/// The first index from `from` on where `text` holds a space, or its length.
fn find_space(text: &str, n: usize, from: usize) -> (i: usize)
    requires
        n == text@.len(),
        from <= n,
    ensures
        i == first_space_from(text@, from as int),
        from <= i <= n,
{
    let mut i = from;
    while i < n
        invariant
            n == text@.len(),
            from <= i <= n,
            first_space_from(text@, from as int) == first_space_from(text@, i as int),
        decreases n - i,
    {
        if text.get_char(i) == ' ' {
            return i;
        }
        i = i + 1;
    }
    i
}

/// The non-empty segments between the '/' characters of `text[start..end]`.
fn split_path(text: &str, start: usize, end: usize) -> (segs: Vec<Vec<char>>)
    requires
        start <= end <= text@.len(),
    ensures
        texts(segs@) == path_segments(text@.subrange(start as int, end as int)),
{
    let ghost t = text@;
    let mut done: Vec<Vec<char>> = Vec::new();
    let mut cur: Vec<char> = Vec::new();
    let mut i = start;
    assert(t.subrange(start as int, start as int) =~= Seq::<char>::empty());
    assert(texts(done@) =~= Seq::<Seq<char>>::empty());
    while i < end
        invariant
            start <= i <= end,
            end <= t.len(),
            t == text@,
            (texts(done@), cur@) == split_state(t.subrange(start as int, i as int)),
        decreases end - i,
    {
        let c = text.get_char(i);
        let ghost p = t.subrange(start as int, i + 1);
        assert(p.drop_last() =~= t.subrange(start as int, i as int));
        if c == '/' {
            if cur.len() > 0 {
                let ghost old_done = texts(done@);
                let finished = cur;
                done.push(finished);
                assert(texts(done@) =~= old_done.push(finished@));
            }
            cur = Vec::new();
            assert(cur@ =~= Seq::<char>::empty());
        } else {
            cur.push(c);
        }
        i = i + 1;
    }
    if cur.len() > 0 {
        let ghost old_done = texts(done@);
        let finished = cur;
        done.push(finished);
        assert(texts(done@) =~= old_done.push(finished@));
    }
    done
}

/// Whether `seg` spells `word`.
fn is_word(seg: &Vec<char>, word: &str) -> (same: bool)
    ensures
        same == (seg@ == word@),
{
    let n = word.unicode_len();
    if seg.len() != n {
        return false;
    }
    let mut i: usize = 0;
    while i < n
        invariant
            0 <= i <= n,
            n == word@.len(),
            seg@.len() == n,
            forall|j: int| 0 <= j < i ==> seg@[j] == word@[j],
        decreases n - i,
    {
        if seg[i] != word.get_char(i) {
            return false;
        }
        i = i + 1;
    }
    assert(seg@ =~= word@);
    true
}

/// The value of the digit character `c`, if it is one.
fn digit(c: char) -> (d: Option<usize>)
    ensures
        d matches Some(v) ==> digit_of(c) == Some(v as nat),
        d is None ==> digit_of(c) is None,
{
    match c {
        '0' => Some(0),
        '1' => Some(1),
        '2' => Some(2),
        '3' => Some(3),
        '4' => Some(4),
        '5' => Some(5),
        '6' => Some(6),
        '7' => Some(7),
        '8' => Some(8),
        '9' => Some(9),
        _ => None,
    }
}

/// A prefix of a digit string writes no larger a number than the whole.
proof fn lemma_digits_value_prefix(s: Seq<char>, k: int)
    requires
        0 <= k <= s.len(),
    ensures
        digits_value(s.take(k)) <= digits_value(s),
    decreases s.len(),
{
    if k < s.len() {
        assert(s.drop_last().take(k) =~= s.take(k));
        lemma_digits_value_prefix(s.drop_last(), k);
    } else {
        assert(s.take(k) =~= s);
    }
}

/// Reads `seg` as an unsigned number, as `str::parse::<usize>` does.
pub fn parse_number(seg: &Vec<char>) -> (r: Option<usize>)
    ensures
        r == parse_usize(seg@),
{
    let n = seg.len();
    let start: usize = if n > 0 && seg[0] == '+' { 1 } else { 0 };
    let ghost d = if seg@.len() > 0 && seg@[0] == '+' { seg@.skip(1) } else { seg@ };
    assert(d =~= seg@.skip(start as int));
    if start >= n {
        return None;
    }
    let mut value: usize = 0;
    let mut i = start;
    while i < n
        invariant
            start <= i <= n,
            n == seg@.len(),
            d == seg@.skip(start as int),
            d == (if seg@.len() > 0 && seg@[0] == '+' { seg@.skip(1) } else { seg@ }),
            0 < d.len(),
            all_digits(d.take(i - start)),
            value == digits_value(d.take(i - start)),
        decreases n - i,
    {
        let ghost k = i - start;
        assert(d.take(k + 1).drop_last() =~= d.take(k));
        assert(d[k] == seg@[i as int]);
        match digit(seg[i]) {
            None => {
                assert(digit_of(d[k]) is None);
                assert(!all_digits(d));
                return None;
            },
            Some(v) => {
                assert(d.take(k + 1).last() == d[k]);
                assert(digits_value(d.take(k + 1)) == value * 10 + v);
                assert(all_digits(d.take(k + 1))) by {
                    assert forall|j: int| 0 <= j < k + 1 implies #[trigger] digit_of(d.take(k + 1)[j]) is Some by {
                        if j < k {
                            assert(d.take(k + 1)[j] == d.take(k)[j]);
                        }
                    }
                }
                match value.checked_mul(10) {
                    None => {
                        proof {
                            lemma_digits_value_prefix(d, k + 1);
                        }
                        return None;
                    },
                    Some(m) => match m.checked_add(v) {
                        None => {
                            proof {
                                lemma_digits_value_prefix(d, k + 1);
                            }
                            return None;
                        },
                        Some(w) => {
                            value = w;
                        },
                    },
                }
            },
        }
        i = i + 1;
    }
    assert(d.take(n - start) =~= d);
    Some(value)
}

/// What the request text `text` asks for; `None` when the text has no path
/// field, or the path lacks a segment or a number that its request needs.
pub fn parse_request(text: &str) -> (r: Option<Request>)
    ensures
        r == request_of(text@),
{
    let n = text.unicode_len();
    let a = find_space(text, n, 0);
    if a >= n {
        return None;
    }
    let b = find_space(text, n, a + 1);
    let segs = split_path(text, a + 1, b);
    let ghost sv = texts(segs@);
    if segs.len() == 0 {
        return Some(Request::Index);
    }
    if is_word(&segs[0], "blackjack") {
        if segs.len() == 1 {
            return Some(Request::NewBlackjack);
        }
        let action = if is_word(&segs[1], "hit") {
            BlackjackAction::Hit
        } else if is_word(&segs[1], "stand") {
            BlackjackAction::Stand
        } else {
            BlackjackAction::Finish
        };
        if segs.len() < 3 {
            return None;
        }
        match parse_number(&segs[2]) {
            Some(id) => Some(Request::Blackjack { action, id }),
            None => None,
        }
    } else if is_word(&segs[0], "tictactoe") {
        if segs.len() == 1 {
            return Some(Request::NewTicTacToe);
        }
        let command = if is_word(&segs[1], "move") {
            TicTacToeAction::Move
        } else {
            TicTacToeAction::Finish
        };
        if segs.len() < 4 {
            return None;
        }
        match (parse_number(&segs[2]), parse_number(&segs[3])) {
            (Some(spot), Some(id)) => Some(Request::TicTacToe { command, spot, id }),
            _ => None,
        }
    } else {
        Some(Request::Unknown)
    }
}

} // verus!
