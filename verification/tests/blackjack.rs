use games::blackjack::{Blackjack, GameMap};

#[test]
fn it_works() {
    assert_eq!(2 + 2, 4);
}

#[test]
fn points_count_an_ace_high_when_it_fits() {
    assert_eq!(Blackjack::sum_points(&vec![]), 0);
    assert_eq!(Blackjack::sum_points(&vec![0, 12]), 21);
    assert_eq!(Blackjack::sum_points(&vec![0, 13]), 12);
    assert_eq!(Blackjack::sum_points(&vec![9, 10, 0]), 21);
    assert_eq!(Blackjack::sum_points(&vec![12, 11, 10]), 30);
    assert_eq!(Blackjack::sum_points(&vec![1, 2, 3]), 2 + 3 + 4);
    assert_eq!(Blackjack::sum_points(&vec![8, 0]), 9 + 11);
}

#[test]
fn card_names() {
    assert_eq!(Blackjack::to_string(0), "AS");
    assert_eq!(Blackjack::to_string(9), "10S");
    assert_eq!(Blackjack::to_string(13), "AD");
    assert_eq!(Blackjack::to_string(36), "JC");
    assert_eq!(Blackjack::to_string(50), "QH");
    assert_eq!(Blackjack::to_string(51), "KH");
    assert_eq!(Blackjack::to_string(52), "AH");
}

#[test]
fn hands_are_joined_by_commas() {
    assert_eq!(Blackjack::hand_print(&vec![]), "");
    assert_eq!(Blackjack::hand_print(&vec![0]), "AS");
    assert_eq!(Blackjack::hand_print(&vec![0, 22, 27]), "AS, 10D, 2C");
}

#[test]
fn deal_gives_dealer_the_top_card_then_two_to_the_player() {
    let b = Blackjack::deal(vec![5, 6, 7, 0, 12]);
    assert_eq!(b.dealer_hand_print(), "KS");
    assert_eq!(b.player_hand_print(), "AS, 8S");
    assert_eq!(b.player_points(), 19);
    assert_eq!(b.dealer_points(), 10);
    assert!(!b.is_player_done());
    assert_eq!(GameMap::to_json(7, &b), "{id: 7, player: \"AS, 8S\"}");
}

#[test]
fn player_hit_draws_the_top_card() {
    let mut b = Blackjack::deal(vec![5, 6, 1, 7, 0, 12]);
    b.player_hit();
    assert_eq!(b.player_hand_print(), "AS, 8S, 2S");
    assert_eq!(b.player_points(), 21);
    assert!(b.is_player_done());
    // once done, hitting changes nothing
    b.player_hit();
    assert_eq!(b.player_hand_print(), "AS, 8S, 2S");
}

#[test]
fn stand_lets_the_dealer_draw_past_sixteen() {
    let mut b = Blackjack::deal(vec![6, 5, 9, 12, 10]);
    assert_eq!(b.player_points(), 20);
    b.player_stand();
    assert_eq!(b.dealer_hand_print(), "JS, 6S, 7S");
    assert!(b.is_dealer_done());
    assert!(b.is_dealer_busted());
    assert_eq!(
        GameMap::to_json(3, &b),
        "{id: 3, player: \"KS, 10S\", dealer: \"JS, 6S, 7S\", result: \"win\"}"
    );
}

#[test]
fn busted_player_stands_without_dealer_drawing() {
    let mut b = Blackjack::deal(vec![4, 11, 10, 9, 1]);
    // dealer 2S; player 10S, JS = 20; the next card QS busts the player
    b.player_hit();
    assert!(b.is_player_busted());
    b.player_stand();
    assert_eq!(b.dealer_hand_print(), "2S");
    assert_eq!(
        GameMap::to_json(1, &b),
        "{id: 1, player: \"10S, JS, QS\", dealer: \"2S\", result: \"busted\"}"
    );
}

#[test]
fn results_push_lose_and_blackjack() {
    // dealer KS then 7S = 17; player 10S, 7D = 17: push
    let mut push = Blackjack::deal(vec![6, 19, 9, 12]);
    push.player_stand();
    assert!(GameMap::to_json(2, &push).ends_with("result: \"push\"}"));
    // dealer KS then 8S = 18; player 10S, 7D = 17: lose
    let mut lose = Blackjack::deal(vec![7, 19, 9, 12]);
    lose.player_stand();
    assert!(GameMap::to_json(2, &lose).ends_with("result: \"lose\"}"));
    // player AS, KD = 21 is done at once: blackjack
    let bj = Blackjack::deal(vec![25, 0, 3]);
    assert!(bj.is_player_done());
    assert_eq!(
        GameMap::to_json(4, &bj),
        "{id: 4, player: \"AS, KD\", dealer: \"4S\", result: \"blackjack\"}"
    );
}

#[test]
fn dealer_hit_moves_the_top_card() {
    let mut b = Blackjack::deal(vec![3, 4, 5, 6]);
    b.dealer_hit();
    assert_eq!(b.dealer_hand_print(), "7S, 4S");
}

#[test]
fn fresh_tables_play_out_without_running_short() {
    for _ in 0..200 {
        let mut b = Blackjack::new();
        assert_eq!(b.player_hand_print().matches(", ").count(), 1);
        assert_eq!(b.dealer_hand_print().matches(", ").count(), 0);
        for _ in 0..30 {
            b.player_hit();
        }
        assert!(b.is_player_done());
        b.player_stand();
        assert!(b.is_player_busted() || b.is_dealer_done());
    }
}

#[test]
fn game_map_create_hit_stand_finish() {
    let mut games = GameMap::new();
    assert_eq!(games.last_id(), 0);
    assert_eq!(games.hit_game(1), "{}");
    assert_eq!(games.stand_game(1), "{}");
    let reply = games.create_game();
    assert!(reply.starts_with("{id: 1, player: \""));
    assert_eq!(games.last_id(), 1);
    let reply = games.stand_game(1);
    assert!(reply.starts_with("{id: 1, player: \""));
    assert!(reply.contains("dealer: \""));
    assert!(reply.contains("result: \""));
    assert_eq!(games.finish_game(1), "");
    assert_eq!(games.hit_game(1), "{}");
    let reply = games.create_game();
    assert!(reply.starts_with("{id: 2, "));
}

#[test]
fn new_tables_are_shuffled() {
    // An unshuffled deck would always deal the dealer KH and the player QH, JH.
    let mut unshuffled = 0;
    for _ in 0..50 {
        let b = Blackjack::new();
        if b.dealer_hand_print() == "KH" && b.player_hand_print() == "QH, JH" {
            unshuffled += 1;
        }
    }
    assert!(unshuffled < 50);
}

#[test]
fn a_fresh_deal_uses_distinct_cards() {
    for _ in 0..100 {
        let b = Blackjack::new();
        let player = b.player_hand_print();
        let dealer = b.dealer_hand_print();
        let cards: Vec<&str> = player.split(", ").chain(std::iter::once(dealer.as_str())).collect();
        assert_eq!(cards.len(), 3);
        assert!(cards[0] != cards[1] && cards[0] != cards[2] && cards[1] != cards[2]);
    }
}

#[test]
fn points_ignore_order_and_suit() {
    assert_eq!(Blackjack::sum_points(&vec![0, 12, 4]), Blackjack::sum_points(&vec![17, 13, 25]));
    assert_eq!(Blackjack::sum_points(&vec![0, 9]), Blackjack::sum_points(&vec![48, 26]));
}

#[test]
fn every_card_has_its_own_name() {
    let names: Vec<String> = (0u8..52).map(Blackjack::to_string).collect();
    for a in 0..52 {
        for b in 0..52 {
            if a != b {
                assert_ne!(names[a], names[b]);
            }
        }
    }
}

#[test]
fn standing_twice_is_standing_once() {
    let mut b = Blackjack::deal(vec![6, 5, 9, 12, 10]);
    b.player_stand();
    assert!(b.is_player_done());
    let dealer = b.dealer_hand_print();
    let player = b.player_hand_print();
    b.player_stand();
    b.player_hit();
    assert_eq!(b.dealer_hand_print(), dealer);
    assert_eq!(b.player_hand_print(), player);
}
