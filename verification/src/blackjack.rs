//! A blackjack table: one player against the dealer, and the map of tables
//! that the server keeps open.

use std::collections::HashMap;
use vstd::prelude::*;
use vstd::multiset::Multiset;
use rand::Rng;
use crate::cards::{card_value, raw_total, has_ace, hand_points, points_fit, hand_text, card_text, lemma_raw_total_bounds, lemma_raw_total_prefix, lemma_push_card, push_card_name};
use crate::text::{decimal, push_decimal};

verus! {

broadcast use vstd::seq_lib::group_to_multiset_ensures, vstd::multiset::group_multiset_axioms;

/// The 52 cards of a full deck, 0 to 51, in order.
pub open spec fn standard_deck() -> Seq<u8> {
    Seq::new(52, |i: int| i as u8)
}

/// `cards` holds each card of a full deck exactly once, in some order.
pub open spec fn is_full_deck(cards: Seq<u8>) -> bool {
    cards.to_multiset() == standard_deck().to_multiset()
}

/// What a blackjack table holds: the cards still to be drawn (the top of
/// the deck is its last card), the player's hand and the dealer's hand.
#[verifier::ext_equal]
pub struct Table {
    pub deck: Seq<u8>,
    pub player: Seq<u8>,
    pub dealer: Seq<u8>,
}

impl Table {
    pub open spec fn player_points(self) -> nat {
        hand_points(self.player)
    }

    pub open spec fn dealer_points(self) -> nat {
        hand_points(self.dealer)
    }

    /// The dealer stops drawing above 16 points.
    pub open spec fn dealer_done(self) -> bool {
        self.dealer_points() > 16
    }

    /// The player may draw no more once at 21 points or more, or once the
    /// dealer is done.
    pub open spec fn player_done(self) -> bool {
        self.player_points() >= 21 || self.dealer_done()
    }

    pub open spec fn player_busted(self) -> bool {
        self.player_points() > 21
    }

    pub open spec fn dealer_busted(self) -> bool {
        self.dealer_points() > 21
    }

    /// Every card on the table: deck, then the player's hand, then the dealer's.
    pub open spec fn cards(self) -> Seq<u8> {
        self.deck + self.player + self.dealer
    }

    /// The top card of the deck moves to the dealer's hand.
    pub open spec fn after_dealer_hit(self) -> Table {
        Table {
            deck: self.deck.drop_last(),
            player: self.player,
            dealer: self.dealer.push(self.deck.last()),
        }
    }

    /// The top card of the deck moves to the player's hand, unless the player is done.
    pub open spec fn after_player_hit(self) -> Table {
        if self.player_done() {
            self
        } else {
            Table {
                deck: self.deck.drop_last(),
                player: self.player.push(self.deck.last()),
                dealer: self.dealer,
            }
        }
    }

    /// The dealer draws from the top of the deck until above 16 points, or
    /// until the deck is empty.
    pub open spec fn dealer_play(self) -> Table
        decreases self.deck.len(),
    {
        if self.dealer_done() || self.deck.len() == 0 {
            self
        } else {
            self.after_dealer_hit().dealer_play()
        }
    }

    /// The player stands: unless busted, the dealer plays out the hand.
    pub open spec fn after_player_stand(self) -> Table {
        if self.player_busted() {
            self
        } else {
            self.dealer_play()
        }
    }

    /// The player can ask for a card without the points overflowing a byte
    /// or the deck running out.
    pub open spec fn can_player_hit(self) -> bool {
        &&& points_fit(self.player)
        &&& self.player_points() < 21 ==> points_fit(self.dealer)
        &&& !self.player_done() ==> self.deck.len() > 0
    }

    /// The player can stand without the points overflowing a byte or the
    /// deck running out before the dealer is done.
    pub open spec fn can_player_stand(self) -> bool {
        &&& points_fit(self.player)
        &&& !self.player_busted() ==> {
            &&& points_fit(self.dealer)
            &&& self.dealer_play().dealer_done()
        }
    }

    /// A table as play leaves it: the cards on it are a full deck, the
    /// player holds at most 21 cards and the dealer at most 17.
    pub open spec fn well_dealt(self) -> bool {
        &&& is_full_deck(self.cards())
        &&& self.player.len() <= 21
        &&& self.dealer.len() <= 17
    }

    /// The table dealt from `deck` (at least three cards): the dealer takes
    /// the top card, then the player the next two.
    pub open spec fn dealt_from(deck: Seq<u8>) -> Table {
        let n = deck.len() as int;
        Table {
            deck: deck.take(n - 3),
            player: seq![deck[n - 2], deck[n - 3]],
            dealer: seq![deck[n - 1]],
        }
    }

    /// A table freshly dealt from some shuffle of a full deck.
    pub open spec fn is_fresh_deal(self) -> bool {
        exists|deck: Seq<u8>| is_full_deck(deck) && self == #[trigger] Table::dealt_from(deck)
    }

    /// How a finished hand ended for the player.
    pub open spec fn outcome_text(self) -> Seq<char> {
        if self.player_busted() {
            "busted"@
        } else if self.player_points() == 21 {
            "blackjack"@
        } else if self.dealer_busted() || self.player_points() > self.dealer_points() {
            "win"@
        } else if self.player_points() == self.dealer_points() {
            "push"@
        } else {
            "lose"@
        }
    }

    /// The reply that reports the table under number `id`: the player's
    /// hand while the player plays on; then also the dealer's hand and the outcome.
    pub open spec fn json_text(self, id: nat) -> Seq<char> {
        if !self.player_done() {
            "{id: "@ + decimal(id) + ", player: \""@ + hand_text(self.player) + "\"}"@
        } else {
            "{id: "@ + decimal(id) + ", player: \""@ + hand_text(self.player) + "\", dealer: \""@
                + hand_text(self.dealer) + "\", result: \""@ + self.outcome_text() + "\"}"@
        }
    }
}


/// The result reported for a finished hand: "busted" when the player is
/// over 21; "blackjack" at exactly 21; "win" when the dealer is over 21;
/// otherwise "win", "push" or "lose" as the player's points are above,
/// equal to or below the dealer's.
pub proof fn lemma_outcome_by_points(t: Table)
    ensures
        t.player_points() > 21 ==> t.outcome_text() == "busted"@,
        t.player_points() == 21 ==> t.outcome_text() == "blackjack"@,
        t.player_points() < 21 && t.dealer_points() > 21 ==> t.outcome_text() == "win"@,
        t.player_points() < 21 && t.dealer_points() <= 21 && t.player_points() > t.dealer_points()
            ==> t.outcome_text() == "win"@,
        t.player_points() < 21 && t.dealer_points() <= 21 && t.player_points() == t.dealer_points()
            ==> t.outcome_text() == "push"@,
        t.player_points() < 21 && t.dealer_points() <= 21 && t.player_points() < t.dealer_points()
            ==> t.outcome_text() == "lose"@,
{
}

/// The reply for a finished hand ends with its result, and the reply while
/// the player plays on names no result: it ends with the player's hand.
pub proof fn lemma_reply_ends_with_result(t: Table, id: nat)
    ensures
        t.player_done() ==> exists|head: Seq<char>|
            t.json_text(id) == head + "\", result: \""@ + t.outcome_text() + "\"}"@,
        !t.player_done() ==> t.json_text(id) == "{id: "@ + decimal(id) + ", player: \""@ + hand_text(t.player)
            + "\"}"@,
{
    if t.player_done() {
        let head = "{id: "@ + decimal(id) + ", player: \""@ + hand_text(t.player) + "\", dealer: \""@
            + hand_text(t.dealer);
        assert(t.json_text(id) == head + "\", result: \""@ + t.outcome_text() + "\"}"@);
    }
}


/// The dealer draws to 17: when the deck is long enough, the dealer's play
/// ends above 16 points, the dealer's first cards stay as they were, and the
/// dealer drew the last card only while holding 16 points or fewer; a dealer
/// already above 16 draws nothing.
pub proof fn lemma_dealer_draws_to_seventeen(t: Table)
    requires
        t.deck.len() + raw_total(t.dealer) >= 17,
    ensures
        hand_points(t.dealer_play().dealer) > 16,
        t.dealer_play().dealer.len() >= t.dealer.len(),
        t.dealer_play().dealer.take(t.dealer.len() as int) == t.dealer,
        hand_points(t.dealer) > 16 ==> t.dealer_play() == t,
        t.dealer_play().dealer.len() > t.dealer.len() ==> hand_points(t.dealer_play().dealer.drop_last()) <= 16,
    decreases t.deck.len(),
{
    lemma_dealer_play(t);
    if !t.dealer_done() {
        let u = t.after_dealer_hit();
        lemma_raw_total_bounds(t.dealer);
        lemma_push_card(t.dealer, t.deck.last());
        lemma_dealer_draws_to_seventeen(u);
        assert(u.dealer.take(t.dealer.len() as int) =~= t.dealer);
        assert(u.dealer_play().dealer.take(t.dealer.len() as int) =~= u.dealer_play().dealer.take(
            u.dealer.len() as int,
        ).take(t.dealer.len() as int));
        if u.dealer_play().dealer.len() == u.dealer.len() {
            assert(u.dealer_play().dealer =~= u.dealer_play().dealer.take(u.dealer.len() as int));
            assert(u.dealer.drop_last() =~= t.dealer);
        }
    } else {
        assert(t.dealer.take(t.dealer.len() as int) =~= t.dealer);
    }
}


/// The player draws the top card exactly while under 21 points with the
/// dealer at 16 points or fewer; at 21 or more, or once the dealer is above
/// 16, hitting changes nothing.
pub proof fn lemma_hit_draws_while_under_21(t: Table)
    ensures
        hand_points(t.player) < 21 && hand_points(t.dealer) <= 16 ==> t.after_player_hit() == (Table {
            deck: t.deck.drop_last(),
            player: t.player.push(t.deck.last()),
            dealer: t.dealer,
        }),
        hand_points(t.player) >= 21 || hand_points(t.dealer) > 16 ==> t.after_player_hit() == t,
{
}

/// Moving the top card of the deck into a hand leaves the cards on the table unchanged.
proof fn lemma_move_top_card(deck: Seq<u8>, player: Seq<u8>, dealer: Seq<u8>)
    requires
        deck.len() > 0,
    ensures
        (deck.drop_last() + player.push(deck.last()) + dealer).to_multiset()
            =~= (deck + player + dealer).to_multiset(),
        (deck.drop_last() + player + dealer.push(deck.last())).to_multiset()
            =~= (deck + player + dealer).to_multiset(),
{
    broadcast use vstd::seq_lib::lemma_multiset_commutative;
    let x = deck.last();
    let d = deck.drop_last();
    assert(deck =~= d.push(x));
    assert((d + player.push(x) + dealer).to_multiset() =~= d.to_multiset().add(player.push(x).to_multiset()).add(dealer.to_multiset()));
    assert((d + player + dealer.push(x)).to_multiset() =~= d.to_multiset().add(player.to_multiset()).add(dealer.push(x).to_multiset()));
    assert((deck + player + dealer).to_multiset() =~= deck.to_multiset().add(player.to_multiset()).add(dealer.to_multiset()));
}

/// The dealer finishes playing whenever the deck and the low total of the
/// dealer's hand add up to 17 or more; playing moves cards from the deck to
/// the dealer's hand only, and leaves the dealer with at most 17 cards when
/// the dealer started with at most 17.
proof fn lemma_dealer_play(t: Table)
    requires
        t.deck.len() + raw_total(t.dealer) >= 17,
    ensures
        t.dealer_play().dealer_done(),
        t.dealer_play().player == t.player,
        t.dealer_play().cards().to_multiset() =~= t.cards().to_multiset(),
        t.dealer.len() <= 17 ==> t.dealer_play().dealer.len() <= 17,
    decreases t.deck.len(),
{
    if t.dealer_done() {
    } else {
        lemma_raw_total_bounds(t.dealer);
        lemma_push_card(t.dealer, t.deck.last());
        lemma_raw_total_bounds(seq![t.deck.last()]);
        assert(seq![t.deck.last()].drop_last() =~= Seq::<u8>::empty());
        lemma_move_top_card(t.deck, t.player, t.dealer);
        lemma_dealer_play(t.after_dealer_hit());
    }
}

/// A table that play has left well dealt never runs short: the player can
/// hit and can stand, and whatever the player does the table stays well dealt.
pub proof fn lemma_well_dealt_plays_on(t: Table)
    requires
        t.well_dealt(),
    ensures
        t.can_player_hit(),
        t.can_player_stand(),
        t.after_player_hit().well_dealt(),
        t.after_player_stand().well_dealt(),
        !t.player_busted() ==> t.after_player_stand().dealer_done(),
{
    lemma_raw_total_bounds(t.player);
    lemma_raw_total_bounds(t.dealer);
    assert(t.cards().len() == 52) by {
        assert(standard_deck().to_multiset().len() == 52);
    }
    if !t.player_done() {
        lemma_move_top_card(t.deck, t.player, t.dealer);
        assert(t.after_player_hit().cards().to_multiset() =~= t.cards().to_multiset());
    }
    lemma_dealer_play(t);
}


/// Drawing for the dealer keeps the dealer's points countable in a byte:
/// the dealer only draws at 16 points or fewer.
proof fn lemma_dealer_play_fits(t: Table)
    requires
        points_fit(t.dealer),
    ensures
        points_fit(t.dealer_play().dealer),
        t.dealer_play().player == t.player,
    decreases t.deck.len(),
{
    if !t.dealer_done() && t.deck.len() > 0 {
        lemma_push_card(t.dealer, t.deck.last());
        assert(card_value(t.deck.last()) <= 10);
        lemma_dealer_play_fits(t.after_dealer_hit());
    }
}

/// Standing twice is standing once, whatever the table: after the dealer
/// has played, the dealer is done or the deck is empty, and neither draws again.
pub proof fn lemma_standing_twice_is_standing_once(t: Table)
    ensures
        t.after_player_stand().after_player_stand() == t.after_player_stand(),
        t.after_player_stand().player == t.player,
    decreases t.deck.len(),
{
    if !t.player_busted() {
        if !t.dealer_done() && t.deck.len() > 0 {
            lemma_standing_twice_is_standing_once(t.after_dealer_hit());
        }
    }
}

/// Standing ends the player's turn whenever the deck lasts until the dealer
/// is done: the player is then done, and hitting changes nothing. When the
/// table can be stood on without overflowing a byte, the points of both hands
/// can still be counted afterwards.
pub proof fn lemma_standing_ends_the_turn(t: Table)
    requires
        t.player_busted() || t.dealer_play().dealer_done(),
    ensures
        t.after_player_stand().player_done(),
        t.after_player_stand().after_player_hit() == t.after_player_stand(),
        t.after_player_stand().after_player_stand() == t.after_player_stand(),
        t.can_player_stand() ==> t.after_player_stand().can_player_stand(),
        t.can_player_stand() ==> t.after_player_stand().can_player_hit(),
{
    lemma_standing_twice_is_standing_once(t);
    if !t.player_busted() && t.can_player_stand() {
        lemma_dealer_play_fits(t);
    }
}

/// Every fresh deal is well dealt.
pub proof fn lemma_fresh_deal_is_well_dealt(t: Table)
    requires
        t.is_fresh_deal(),
    ensures
        t.well_dealt(),
        t.player.len() == 2,
        t.dealer.len() == 1,
        t.deck.len() == 49,
{
    broadcast use vstd::seq_lib::lemma_multiset_commutative;
    let deck = choose|deck: Seq<u8>| is_full_deck(deck) && t == #[trigger] Table::dealt_from(deck);
    assert(deck.len() == 52) by {
        assert(standard_deck().to_multiset().len() == 52);
    }
    let n = 52int;
    let rest = deck.take(n - 3);
    assert(deck =~= rest.push(deck[n - 3]).push(deck[n - 2]).push(deck[n - 1]));
    assert(t.player =~= seq![deck[n - 2]].push(deck[n - 3]));
    assert(t.dealer =~= Seq::<u8>::empty().push(deck[n - 1]));
    assert(seq![deck[n - 2]] =~= Seq::<u8>::empty().push(deck[n - 2]));
    let e = Seq::<u8>::empty();
    assert(e.to_multiset() =~= Multiset::<u8>::empty());
    assert(t.player.to_multiset() =~= Multiset::<u8>::empty().insert(deck[n - 2]).insert(deck[n - 3]));
    assert(t.dealer.to_multiset() =~= Multiset::<u8>::empty().insert(deck[n - 1]));
    assert(deck.to_multiset() =~= rest.to_multiset().insert(deck[n - 3]).insert(deck[n - 2]).insert(deck[n - 1]));
    assert(t.cards().to_multiset() =~= rest.to_multiset().add(t.player.to_multiset()).add(t.dealer.to_multiset()));
    assert(t.cards().to_multiset() =~= deck.to_multiset());
}

/// One hand of blackjack.
#[derive(Debug)]
pub struct Blackjack {
    deck: Vec<u8>,
    player_cards: Vec<u8>,
    dealer_cards: Vec<u8>,
}

impl View for Blackjack {
    type V = Table;

    closed spec fn view(&self) -> Table {
        Table { deck: self.deck@, player: self.player_cards@, dealer: self.dealer_cards@ }
    }
}

/// Shuffles `deck` in place with `rand::Rng::shuffle` on the thread's
/// generator (`rand::thread_rng`). The contract claims only what holds of
/// every outcome: the same cards come back, in some order, since the
/// shuffle only swaps cards. Which order is left unsaid: it rests on
/// chance. `rand::thread_rng` panics when the system offers no entropy;
/// that depends on the machine, not on the argument.
#[verifier::external_body]
fn shuffle_deck(deck: &mut Vec<u8>)
    ensures
        final(deck)@.to_multiset() == old(deck)@.to_multiset(),
{
    let mut rng = rand::thread_rng();
    rng.shuffle(deck);
}

impl Blackjack {
    /// A new hand: a full deck is shuffled, the dealer draws one card and
    /// the player two.
    pub fn new() -> (b: Blackjack)
        ensures
            b@.is_fresh_deal(),
            b@.well_dealt(),
    {
        let mut deck: Vec<u8> = Vec::new();
        let mut i: u8 = 0;
        while i < 52
            invariant
                i <= 52,
                deck@ =~= Seq::new(i as nat, |j: int| j as u8),
            decreases 52 - i,
        {
            deck.push(i);
            i = i + 1;
        }
        assert(deck@ =~= standard_deck());
        shuffle_deck(&mut deck);
        proof {
            assert(deck@.len() == 52) by {
                assert(standard_deck().to_multiset().len() == 52);
            }
        }
        let b = Self::deal(deck);
        proof {
            lemma_fresh_deal_is_well_dealt(b@);
        }
        b
    }

    /// Deals a hand from `deck`, whose last card is the top: the dealer
    /// draws one card, then the player two.
    pub fn deal(deck: Vec<u8>) -> (b: Blackjack)
        requires
            deck@.len() >= 3,
        ensures
            b@ == Table::dealt_from(deck@),
    {
        let ghost d = deck@;
        let mut b = Blackjack { deck: deck, player_cards: Vec::new(), dealer_cards: Vec::new() };
        b.dealer_hit();
        proof {
            lemma_push_card(Seq::<u8>::empty(), d.last());
            assert(Seq::<u8>::empty().push(d.last()) =~= b.dealer_cards@);
            assert(b.player_cards@.len() == 0);
            assert(!has_ace(b.player_cards@));
        }
        b.player_hit();
        proof {
            lemma_push_card(Seq::<u8>::empty(), d[d.len() - 2]);
            assert(Seq::<u8>::empty().push(d[d.len() - 2]) =~= b.player_cards@);
        }
        b.player_hit();
        assert(b@ =~= Table::dealt_from(d));
        b
    }

    /// The player's cards written out, e.g. "AS, 10D".
    pub fn player_hand_print(&self) -> (text: String)
        ensures
            text@ == hand_text(self@.player),
    {
        Self::hand_print(&self.player_cards)
    }

    /// The dealer's cards written out.
    pub fn dealer_hand_print(&self) -> (text: String)
        ensures
            text@ == hand_text(self@.dealer),
    {
        Self::hand_print(&self.dealer_cards)
    }

    /// The player stands: unless busted, the dealer draws until above 16 points.
    pub fn player_stand(&mut self)
        requires
            old(self)@.can_player_stand(),
        ensures
            final(self)@ == old(self)@.after_player_stand(),
            !old(self)@.player_busted() ==> final(self)@.dealer_done(),
            final(self)@.player_done(),
            final(self)@.can_player_stand(),
            final(self)@.can_player_hit(),
            final(self)@.cards().to_multiset() == old(self)@.cards().to_multiset(),
            old(self)@.well_dealt() ==> final(self)@.well_dealt(),
    {
        let ghost start = self@;
        proof {
            if start.well_dealt() {
                lemma_well_dealt_plays_on(start);
            }
            lemma_standing_ends_the_turn(start);
        }
        if !self.is_player_busted() {
            while self.dealer_points() <= 16
                invariant
                    self@.dealer_play() == start.dealer_play(),
                    start.dealer_play().dealer_done(),
                    points_fit(self@.dealer),
                    self@.player == start.player,
                    self@.cards().to_multiset() == start.cards().to_multiset(),
                decreases self@.deck.len(),
            {
                proof {
                    lemma_raw_total_bounds(self@.dealer);
                    lemma_push_card(self@.dealer, self@.deck.last());
                    lemma_move_top_card(self@.deck, self@.player, self@.dealer);
                }
                self.dealer_hit();
            }
        }
    }

    /// The player draws the top card, unless done.
    pub fn player_hit(&mut self)
        requires
            old(self)@.can_player_hit(),
        ensures
            final(self)@ == old(self)@.after_player_hit(),
            final(self)@.cards().to_multiset() == old(self)@.cards().to_multiset(),
            old(self)@.well_dealt() ==> final(self)@.well_dealt(),
    {
        proof {
            if self@.well_dealt() {
                lemma_well_dealt_plays_on(self@);
            }
            if !self@.player_done() {
                lemma_move_top_card(self@.deck, self@.player, self@.dealer);
            }
        }
        if !self.is_player_done() {
            let c = self.deck.pop().unwrap();
            self.player_cards.push(c);
        }
    }

    /// The dealer draws the top card.
    pub fn dealer_hit(&mut self)
        requires
            old(self)@.deck.len() > 0,
        ensures
            final(self)@ == old(self)@.after_dealer_hit(),
            final(self)@.cards().to_multiset() == old(self)@.cards().to_multiset(),
    {
        proof {
            lemma_move_top_card(self@.deck, self@.player, self@.dealer);
        }
        let c = self.deck.pop().unwrap();
        self.dealer_cards.push(c);
    }

    /// Whether the player may draw no more.
    pub fn is_player_done(&self) -> (done: bool)
        requires
            points_fit(self@.player),
            self@.player_points() < 21 ==> points_fit(self@.dealer),
        ensures
            done == self@.player_done(),
    {
        self.player_points() >= 21 || self.is_dealer_done()
    }

    /// Whether the dealer is above 16 points.
    pub fn is_dealer_done(&self) -> (done: bool)
        requires
            points_fit(self@.dealer),
        ensures
            done == self@.dealer_done(),
    {
        self.dealer_points() > 16
    }

    /// Whether the player is above 21 points.
    pub fn is_player_busted(&self) -> (busted: bool)
        requires
            points_fit(self@.player),
        ensures
            busted == self@.player_busted(),
    {
        self.player_points() > 21
    }

    /// Whether the dealer is above 21 points.
    pub fn is_dealer_busted(&self) -> (busted: bool)
        requires
            points_fit(self@.dealer),
        ensures
            busted == self@.dealer_busted(),
    {
        self.dealer_points() > 21
    }

    /// The points of the player's hand.
    pub fn player_points(&self) -> (points: u8)
        requires
            points_fit(self@.player),
        ensures
            points == self@.player_points(),
    {
        Self::sum_points(&self.player_cards)
    }

    /// The points of the dealer's hand.
    pub fn dealer_points(&self) -> (points: u8)
        requires
            points_fit(self@.dealer),
        ensures
            points == self@.dealer_points(),
    {
        Self::sum_points(&self.dealer_cards)
    }

    /// The points of the hand `nums`.
    pub fn sum_points(nums: &Vec<u8>) -> (points: u8)
        requires
            points_fit(nums@),
        ensures
            points == hand_points(nums@),
    {
        let mut found_ace = false;
        let mut sum: u8 = 0;
        let mut i: usize = 0;
        while i < nums.len()
            invariant
                0 <= i <= nums.len(),
                points_fit(nums@),
                sum == raw_total(nums@.take(i as int)),
                found_ace == has_ace(nums@.take(i as int)),
            decreases nums.len() - i,
        {
            let c = nums[i];
            let card_value = (c % 13) + 1;
            proof {
                assert(nums@.take(i + 1) =~= nums@.take(i as int).push(c));
                lemma_push_card(nums@.take(i as int), c);
                lemma_raw_total_prefix(nums@, i + 1);
            }
            let v: u8 = if card_value == 1 {
                found_ace = true;
                1
            } else if card_value < 10 {
                card_value
            } else {
                10
            };
            sum = sum + v;
            i = i + 1;
        }
        proof {
            assert(nums@.take(nums@.len() as int) =~= nums@);
        }
        if found_ace && sum + 10 <= 21 {
            sum + 10
        } else {
            sum
        }
    }

    /// The name of card `num`, such as "AS" or "10D".
    pub fn to_string(num: u8) -> (name: String)
        ensures
            name@ == card_text(num),
    {
        let mut s = String::new();
        push_card_name(&mut s, num);
        assert(s@ =~= card_text(num));
        s
    }

    /// The cards of `nums` written out and joined by ", ".
    pub fn hand_print(nums: &Vec<u8>) -> (text: String)
        ensures
            text@ == hand_text(nums@),
    {
        let mut s = String::new();
        let mut i: usize = 0;
        while i < nums.len()
            invariant
                0 <= i <= nums.len(),
                s@ == hand_text(nums@.take(i as int)),
            decreases nums.len() - i,
        {
            let ghost before = s@;
            assert(nums@.take(i + 1).drop_last() =~= nums@.take(i as int));
            if i != 0 {
                s.append(", ");
                proof { reveal_strlit(", "); }
            } else {
                assert(nums@.take(0) =~= Seq::<u8>::empty());
            }
            push_card_name(&mut s, nums[i]);
            assert(s@ =~= hand_text(nums@.take(i + 1)));
            i = i + 1;
        }
        assert(nums@.take(nums@.len() as int) =~= nums@);
        s
    }

}

/// The open blackjack tables, each under the number it was opened with.
#[derive(Debug)]
pub struct GameMap {
    id: usize,
    games: HashMap<usize, Blackjack>,
}

impl GameMap {
    /// The number given to the most recently opened table (0 before any).
    pub closed spec fn spec_last_id(&self) -> usize {
        self.id
    }

    /// The open tables by number.
    pub closed spec fn tables(&self) -> Map<usize, Table> {
        self.games@.map_values(|g: Blackjack| g@)
    }

    /// Every open table has a number from 1 to the last one given, and is well dealt.
    pub closed spec fn wf(&self) -> bool {
        forall|k: usize| #[trigger] self.games@.contains_key(k) ==> 1 <= k <= self.id && self.games@[k]@.well_dealt()
    }

    /// Every open table is well dealt, so it can be played on and never
    /// runs short.
    pub proof fn lemma_open_tables_well_dealt(&self)
        requires
            self.wf(),
        ensures
            forall|k: usize| #[trigger] self.tables().contains_key(k) ==> 1 <= k <= self.last_id()
                && self.tables()[k].well_dealt(),
    {
    }

    /// No table open yet.
    pub fn new() -> (m: GameMap)
        ensures
            m.wf(),
            m.last_id() == 0,
            m.tables() == Map::<usize, Table>::empty(),
    {
        let m = GameMap { id: 0, games: HashMap::new() };
        assert(m.tables() =~= Map::<usize, Table>::empty());
        m
    }

    /// The number given to the most recently opened table (0 before any).
    #[verifier::when_used_as_spec(spec_last_id)]
    pub fn last_id(&self) -> (id: usize)
        ensures
            id == self.spec_last_id(),
    {
        self.id
    }

    /// The player at table `id` draws a card; the reply reports the table,
    /// or is "{}" when no table has that number.
    pub fn hit_game(&mut self, id: usize) -> (reply: String)
        requires
            old(self).wf(),
        ensures
            final(self).wf(),
            final(self).last_id() == old(self).last_id(),
            old(self).tables().contains_key(id) ==> {
                let t = old(self).tables()[id].after_player_hit();
                &&& final(self).tables() == old(self).tables().insert(id, t)
                &&& reply@ == t.json_text(id as nat)
            },
            !old(self).tables().contains_key(id) ==> {
                &&& final(self).tables() == old(self).tables()
                &&& reply@ == "{}"@
            },
    {
        broadcast use vstd::std_specs::hash::group_hash_axioms;
        let ghost before = self.tables();
        match self.games.remove(&id) {
            Some(mut b) => {
                proof {
                    lemma_well_dealt_plays_on(b@);
                    lemma_well_dealt_plays_on(b@.after_player_hit());
                    lemma_raw_total_bounds(b@.after_player_hit().player);
                    lemma_raw_total_bounds(b@.after_player_hit().dealer);
                }
                b.player_hit();
                let reply = Self::to_json(id, &b);
                self.games.insert(id, b);
                assert(self.tables() =~= before.insert(id, before[id].after_player_hit()));
                reply
            },
            None => {
                assert(self.tables() =~= before);
                let mut reply = String::new();
                reply.append("{}");
                reply
            },
        }
    }

    /// The player at table `id` stands; the reply reports the table, or is
    /// "{}" when no table has that number.
    pub fn stand_game(&mut self, id: usize) -> (reply: String)
        requires
            old(self).wf(),
        ensures
            final(self).wf(),
            final(self).last_id() == old(self).last_id(),
            old(self).tables().contains_key(id) ==> {
                let t = old(self).tables()[id].after_player_stand();
                &&& final(self).tables() == old(self).tables().insert(id, t)
                &&& reply@ == t.json_text(id as nat)
                &&& t.player_done()
                &&& t.well_dealt()
            },
            !old(self).tables().contains_key(id) ==> {
                &&& final(self).tables() == old(self).tables()
                &&& reply@ == "{}"@
            },
    {
        broadcast use vstd::std_specs::hash::group_hash_axioms;
        let ghost before = self.tables();
        match self.games.remove(&id) {
            Some(mut b) => {
                proof {
                    lemma_well_dealt_plays_on(b@);
                    lemma_raw_total_bounds(b@.after_player_stand().player);
                    lemma_raw_total_bounds(b@.after_player_stand().dealer);
                }
                b.player_stand();
                let reply = Self::to_json(id, &b);
                self.games.insert(id, b);
                assert(self.tables() =~= before.insert(id, before[id].after_player_stand()));
                reply
            },
            None => {
                assert(self.tables() =~= before);
                let mut reply = String::new();
                reply.append("{}");
                reply
            },
        }
    }

    /// The reply that reports `game` under number `id`.
    pub fn to_json(id: usize, game: &Blackjack) -> (reply: String)
        requires
            points_fit(game@.player),
            game@.player_points() < 21 ==> points_fit(game@.dealer),
        ensures
            reply@ == game@.json_text(id as nat),
    {
        let mut s = String::new();
        s.append("{id: ");
        push_decimal(&mut s, id);
        s.append(", player: \"");
        let player = game.player_hand_print();
        s.append(player.as_str());
        if !game.is_player_done() {
            s.append("\"}");
        } else {
            s.append("\", dealer: \"");
            let dealer = game.dealer_hand_print();
            s.append(dealer.as_str());
            s.append("\", result: \"");
            let outcome: &str = if game.is_player_busted() {
                "busted"
            } else if game.player_points() == 21 {
                "blackjack"
            } else if game.is_dealer_busted() || game.player_points() > game.dealer_points() {
                "win"
            } else if game.player_points() == game.dealer_points() {
                "push"
            } else {
                "lose"
            };
            s.append(outcome);
            s.append("\"}");
        }
        s
    }

    /// Closes table `id`, if open; the reply is empty.
    pub fn finish_game(&mut self, id: usize) -> (reply: String)
        requires
            old(self).wf(),
        ensures
            final(self).wf(),
            final(self).last_id() == old(self).last_id(),
            final(self).tables() == old(self).tables().remove(id),
            reply@ == Seq::<char>::empty(),
    {
        broadcast use vstd::std_specs::hash::group_hash_axioms;
        let ghost before = self.tables();
        self.games.remove(&id);
        assert(self.tables() =~= before.remove(id));
        String::new()
    }

    /// Opens a table under the next number with a fresh deal; the reply reports it.
    pub fn create_game(&mut self) -> (reply: String)
        requires
            old(self).wf(),
            old(self).last_id() < usize::MAX,
        ensures
            final(self).wf(),
            final(self).last_id() == old(self).last_id() + 1,
            !old(self).tables().contains_key(final(self).last_id() as usize),
            final(self).tables().contains_key(final(self).last_id() as usize),
            final(self).tables().remove(final(self).last_id() as usize) == old(self).tables(),
            final(self).tables()[final(self).last_id() as usize].is_fresh_deal(),
            reply@ == final(self).tables()[final(self).last_id() as usize].json_text(final(self).last_id() as nat),
    {
        broadcast use vstd::std_specs::hash::group_hash_axioms;
        let ghost before = self.tables();
        self.id = self.id + 1;
        let b = Blackjack::new();
        proof {
            lemma_well_dealt_plays_on(b@);
            lemma_raw_total_bounds(b@.player);
            lemma_raw_total_bounds(b@.dealer);
        }
        let reply = Self::to_json(self.id, &b);
        let id = self.id;
        self.games.insert(id, b);
        assert(self.tables().remove(id) =~= before);
        reply
    }
}

} // verus!
