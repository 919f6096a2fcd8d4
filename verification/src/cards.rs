//! Cards as the blackjack table sees them: a card is a number below 52,
//! its rank is the number modulo 13 (0 is the ace) and its suit the number
//! divided by 13 (spades, diamonds, clubs, hearts).

use vstd::prelude::*;
use crate::text::{decimal, digit_char, push_decimal};

verus! {

/// How much a card counts, an ace counted low: ace 1, two to nine their
/// face value, ten and the face cards 10.
pub open spec fn card_value(c: u8) -> nat {
    let rank = c % 13;
    if rank == 0 {
        1
    } else if rank + 1 < 10 {
        (rank + 1) as nat
    } else {
        10
    }
}

/// The sum of the values of `cards`, every ace counted as 1.
pub open spec fn raw_total(cards: Seq<u8>) -> nat
    decreases cards.len(),
{
    if cards.len() == 0 {
        0
    } else {
        raw_total(cards.drop_last()) + card_value(cards.last())
    }
}

/// Whether `cards` holds an ace.
pub open spec fn has_ace(cards: Seq<u8>) -> bool {
    exists|i: int| 0 <= i < cards.len() && #[trigger] cards[i] % 13 == 0
}

/// The points of a hand: the low total, plus 10 when the hand holds an ace
/// and one ace counted as 11 keeps the hand at 21 or below.
pub open spec fn hand_points(cards: Seq<u8>) -> nat {
    if has_ace(cards) && raw_total(cards) + 10 <= 21 {
        raw_total(cards) + 10
    } else {
        raw_total(cards)
    }
}

/// The points of `cards` can be counted in a byte: the low total fits, and
/// so does the low total plus 10 when the hand holds an ace.
pub open spec fn points_fit(cards: Seq<u8>) -> bool {
    &&& raw_total(cards) <= 255
    &&& has_ace(cards) ==> raw_total(cards) <= 245
}


/// How a hand's points add up, card by card. The low total of no cards is
/// 0; each card adds 1 for an ace, its rank plus one for ranks 1 to 8 (two
/// to nine), and 10 for a ten or a face card. A hand without an ace is worth
/// its low total; a hand with an ace is worth 10 more when that keeps it at
/// 21 or below.
pub proof fn lemma_points_card_by_card(s: Seq<u8>, c: u8)
    ensures
        raw_total(Seq::empty()) == 0,
        raw_total(s.push(c)) == raw_total(s) + (if c % 13 == 0 {
            1
        } else if c % 13 <= 8 {
            c % 13 + 1
        } else {
            10
        }),
        (forall|i: int| 0 <= i < s.len() ==> s[i] % 13 != 0) ==> hand_points(s) == raw_total(s),
        (exists|i: int| 0 <= i < s.len() && s[i] % 13 == 0) ==> hand_points(s) == (if raw_total(s) <= 11 {
            raw_total(s) + 10
        } else {
            raw_total(s)
        }),
{
    lemma_push_card(s, c);
    if exists|i: int| 0 <= i < s.len() && s[i] % 13 == 0 {
        let i = choose|i: int| 0 <= i < s.len() && s[i] % 13 == 0;
        assert(has_ace(s));
    }
}

/// The points of one card alone: 11 for an ace, rank plus one for ranks 1
/// to 8, 10 for a ten or a face card.
pub proof fn lemma_single_card_points(c: u8)
    ensures
        hand_points(seq![c]) == (if c % 13 == 0 {
            11
        } else if c % 13 <= 8 {
            c % 13 + 1
        } else {
            10
        }),
{
    lemma_push_card(Seq::empty(), c);
    assert(Seq::<u8>::empty().push(c) =~= seq![c]);
    assert(!has_ace(Seq::<u8>::empty()));
}

/// Every card counts at least 1 and at most 10, so the low total of a hand
/// lies between its number of cards and ten times that number.
pub proof fn lemma_raw_total_bounds(cards: Seq<u8>)
    ensures
        cards.len() <= raw_total(cards) <= 10 * cards.len(),
    decreases cards.len(),
{
    if cards.len() > 0 {
        lemma_raw_total_bounds(cards.drop_last());
    }
}

/// The low total of a prefix never exceeds that of the whole hand.
pub(crate) proof fn lemma_raw_total_prefix(cards: Seq<u8>, k: int)
    requires
        0 <= k <= cards.len(),
    ensures
        raw_total(cards.take(k)) <= raw_total(cards),
    decreases cards.len(),
{
    if k < cards.len() {
        assert(cards.drop_last().take(k) =~= cards.take(k));
        lemma_raw_total_prefix(cards.drop_last(), k);
    } else {
        assert(cards.take(k) =~= cards);
    }
}

/// The low total and the presence of an ace after one more card.
pub(crate) proof fn lemma_push_card(cards: Seq<u8>, c: u8)
    ensures
        raw_total(cards.push(c)) == raw_total(cards) + card_value(c),
        has_ace(cards.push(c)) == (has_ace(cards) || c % 13 == 0),
{
    assert(cards.push(c).drop_last() =~= cards);
    if has_ace(cards) {
        let i = choose|i: int| 0 <= i < cards.len() && #[trigger] cards[i] % 13 == 0;
        assert(cards.push(c)[i] == cards[i]);
    }
    if c % 13 == 0 {
        assert(cards.push(c)[cards.len() as int] == c);
    }
    if has_ace(cards.push(c)) {
        let i = choose|i: int| 0 <= i < cards.len() + 1 && #[trigger] cards.push(c)[i] % 13 == 0;
        if i < cards.len() {
            assert(cards[i] == cards.push(c)[i]);
        }
    }
}


/// The ranks of `cards`, in order.
pub open spec fn ranks(cards: Seq<u8>) -> Seq<u8> {
    cards.map_values(|c: u8| c % 13)
}

/// Taking any one card out of a hand lowers its low total by that card's value.
proof fn lemma_raw_total_remove(s: Seq<u8>, i: int)
    requires
        0 <= i < s.len(),
    ensures
        raw_total(s) == raw_total(s.remove(i)) + card_value(s[i]),
    decreases s.len(),
{
    if i == s.len() - 1 {
        assert(s.remove(i) =~= s.drop_last());
    } else {
        lemma_raw_total_remove(s.drop_last(), i);
        assert(s.remove(i).drop_last() =~= s.drop_last().remove(i));
        assert(s.remove(i).last() == s.last());
    }
}

/// A hand holds an ace exactly when its ranks include 0.
proof fn lemma_has_ace_by_ranks(s: Seq<u8>)
    ensures
        has_ace(s) <==> ranks(s).contains(0),
{
    if has_ace(s) {
        let i = choose|i: int| 0 <= i < s.len() && #[trigger] s[i] % 13 == 0;
        assert(ranks(s)[i] == 0);
    }
    if ranks(s).contains(0) {
        let i = choose|i: int| 0 <= i < ranks(s).len() && ranks(s)[i] == 0;
        assert(s[i] % 13 == 0);
    }
}

/// The points of a hand depend neither on the order of its cards nor on
/// their suits: two hands whose ranks are the same multiset have the same
/// low total, hold an ace alike, have the same points, and fit in a byte alike.
pub proof fn lemma_points_ignore_order_and_suit(ms: Seq<u8>, ns: Seq<u8>)
    requires
        ranks(ms).to_multiset() == ranks(ns).to_multiset(),
    ensures
        raw_total(ms) == raw_total(ns),
        has_ace(ms) == has_ace(ns),
        hand_points(ms) == hand_points(ns),
        points_fit(ms) == points_fit(ns),
    decreases ms.len(),
{
    broadcast use vstd::seq_lib::group_to_multiset_ensures, vstd::multiset::group_multiset_axioms;
    lemma_has_ace_by_ranks(ms);
    lemma_has_ace_by_ranks(ns);
    vstd::seq_lib::to_multiset_len(ranks(ms));
    vstd::seq_lib::to_multiset_len(ranks(ns));
    assert(ranks(ms).len() == ranks(ns).len());
    assert(ranks(ms).contains(0) <==> ranks(ms).to_multiset().count(0) > 0);
    assert(ranks(ns).contains(0) <==> ranks(ns).to_multiset().count(0) > 0);
    if ms.len() > 0 {
        let r = ms.last() % 13;
        assert(ranks(ms) =~= ranks(ms.drop_last()).push(r));
        assert(ranks(ns).to_multiset().count(r) > 0);
        assert(ranks(ns).contains(r));
        let j = choose|j: int| 0 <= j < ranks(ns).len() && ranks(ns)[j] == r;
        assert(ranks(ns.remove(j)) =~= ranks(ns).remove(j));
        assert(ranks(ms.drop_last()).to_multiset() =~= ranks(ns.remove(j)).to_multiset());
        lemma_points_ignore_order_and_suit(ms.drop_last(), ns.remove(j));
        lemma_raw_total_remove(ns, j);
        assert(ns[j] % 13 == r);
        assert(card_value(ns[j]) == card_value(ms.last()));
    } else {
        assert(ns.len() == 0);
        assert(ms =~= ns);
    }
}

/// The name of a rank (0 is the ace): "A", "2" to "10", "J", "Q", "K".
pub open spec fn rank_text(rank: nat) -> Seq<char> {
    if rank == 0 {
        seq!['A']
    } else if rank < 10 {
        decimal(rank + 1)
    } else if rank == 10 {
        seq!['J']
    } else if rank == 11 {
        seq!['Q']
    } else {
        seq!['K']
    }
}

/// The letter of a suit: spades, diamonds, clubs, and hearts for 3 and up.
pub open spec fn suit_text(suit: nat) -> Seq<char> {
    if suit == 0 {
        seq!['S']
    } else if suit == 1 {
        seq!['D']
    } else if suit == 2 {
        seq!['C']
    } else {
        seq!['H']
    }
}

/// The name of a card: its rank, then its suit ("10D", "AS", "QH").
pub open spec fn card_text(c: u8) -> Seq<char> {
    rank_text((c % 13) as nat) + suit_text((c / 13) as nat)
}


/// The first character of a rank's name, and the name's length.
proof fn lemma_rank_text_shape(r: nat)
    requires
        r < 13,
    ensures
        1 <= rank_text(r).len() <= 2,
        rank_text(r)[0] == (if r == 0 {
            'A'
        } else if r == 9 {
            '1'
        } else if r < 9 {
            digit_char(r + 1)
        } else if r == 10 {
            'J'
        } else if r == 11 {
            'Q'
        } else {
            'K'
        }),
{
    reveal_with_fuel(decimal, 2);
}

/// Distinct cards of a full deck have distinct names.
pub proof fn lemma_card_names_distinct(a: u8, b: u8)
    requires
        a < 52,
        b < 52,
        a != b,
    ensures
        card_text(a) != card_text(b),
{
    let ra = (a % 13) as nat;
    let rb = (b % 13) as nat;
    let sa = (a / 13) as nat;
    let sb = (b / 13) as nat;
    lemma_rank_text_shape(ra);
    lemma_rank_text_shape(rb);
    if card_text(a) == card_text(b) {
        let ta = card_text(a);
        assert(ta[0] == rank_text(ra)[0]);
        assert(card_text(b)[0] == rank_text(rb)[0]);
        assert(ta[ta.len() - 1] == suit_text(sa)[0]);
        assert(card_text(b)[card_text(b).len() - 1] == suit_text(sb)[0]);
        assert(ra == rb);
        assert(sa == sb);
        assert(a == sa * 13 + ra);
        assert(b == sb * 13 + rb);
    }
}

/// A hand written out: the names of its cards joined by ", ".
pub open spec fn hand_text(cards: Seq<u8>) -> Seq<char>
    decreases cards.len(),
{
    if cards.len() == 0 {
        Seq::empty()
    } else if cards.len() == 1 {
        card_text(cards[0])
    } else {
        hand_text(cards.drop_last()) + seq![',', ' '] + card_text(cards.last())
    }
}


/// A card's name is its rank's name followed by one suit letter: S, D, C, H
/// for cards 0-12, 13-25, 26-38, 39-51; the rank's name is "A" for an ace,
/// the digit of rank plus one for ranks 1 to 8, "10" for rank 9, and "J",
/// "Q", "K" for ranks 10, 11, 12.
pub proof fn lemma_card_text_parts(c: u8)
    requires
        c < 52,
    ensures
        card_text(c).len() >= 2,
        card_text(c).last() == (if c < 13 { 'S' } else if c < 26 { 'D' } else if c < 39 { 'C' } else { 'H' }),
        c % 13 == 0 ==> card_text(c).drop_last() == seq!['A'],
        1 <= c % 13 <= 8 ==> card_text(c).drop_last() == seq![digit_char((c % 13 + 1) as nat)],
        c % 13 == 9 ==> card_text(c).drop_last() == seq!['1', '0'],
        c % 13 == 10 ==> card_text(c).drop_last() == seq!['J'],
        c % 13 == 11 ==> card_text(c).drop_last() == seq!['Q'],
        c % 13 == 12 ==> card_text(c).drop_last() == seq!['K'],
{
    reveal_with_fuel(decimal, 2);
    let r = (c % 13) as nat;
    let t = card_text(c);
    assert(t.drop_last() =~= rank_text(r));
}

/// A hand's text: nothing for no cards, a lone card's name, and for more
/// cards the text of all but the last, then ", ", then the last card's name.
pub proof fn lemma_hand_text_joins_names(s: Seq<u8>, c: u8)
    ensures
        hand_text(Seq::empty()) == Seq::<char>::empty(),
        hand_text(seq![c]) == card_text(c),
        s.len() > 0 ==> hand_text(s.push(c)) == hand_text(s) + seq![',', ' '] + card_text(c),
{
    assert(s.push(c).drop_last() =~= s);
}

/// Appends the name of card `num` to `s`.
pub(crate) fn push_card_name(s: &mut String, num: u8)
    ensures
        final(s)@ == old(s)@ + card_text(num),
{
    let ghost start = s@;
    let rank = num % 13;
    if rank == 0 {
        s.append("A");
        proof { reveal_strlit("A"); }
    } else if rank < 10 {
        push_decimal(s, (rank + 1) as usize);
    } else if rank == 10 {
        s.append("J");
        proof { reveal_strlit("J"); }
    } else if rank == 11 {
        s.append("Q");
        proof { reveal_strlit("Q"); }
    } else {
        s.append("K");
        proof { reveal_strlit("K"); }
    }
    let ghost mid = s@;
    assert(mid =~= start + rank_text(rank as nat));
    let suit = num / 13;
    if suit == 0 {
        s.append("S");
        proof { reveal_strlit("S"); }
    } else if suit == 1 {
        s.append("D");
        proof { reveal_strlit("D"); }
    } else if suit == 2 {
        s.append("C");
        proof { reveal_strlit("C"); }
    } else {
        s.append("H");
        proof { reveal_strlit("H"); }
    }
    assert(s@ =~= start + card_text(num));
}

} // verus!
