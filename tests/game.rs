use blackjack::card::Card;
use blackjack::card::Rank::{Ace, Four, Jack, King, Queen, Ten};
use blackjack::deck::Deck;
use blackjack::game::{best_hand_value, DealerAction, Error, Game};

fn cards(codes: &[&str]) -> Vec<Card> {
    codes.iter().map(|c| Card::of(c)).collect()
}

#[test]
fn dealing_a_hard_reduces_player_bank_and_deals_cards() {
    let mut game = Game {
        deck: Deck::new(),
        dealer_cards: Vec::new(),
        player_cards: Vec::new(),
        player_money: 100,
        current_bet: 0,
    };

    assert_eq!(Ok(()), game.deal_hand(5));

    assert_eq!(95, game.player_money);
    assert_eq!(5, game.current_bet);

    assert_eq!(2, game.player_cards.len());
    assert_eq!(2, game.dealer_cards.len());
}

#[test]
fn dealing_takes_dealer_cards_first() {
    let mut game = Game {
        deck: Deck::of(cards(&["2c", "3c", "4c", "5c", "6c"])),
        dealer_cards: Vec::new(),
        player_cards: Vec::new(),
        player_money: 100,
        current_bet: 0,
    };

    assert_eq!(Ok(()), game.deal_hand(5));

    assert_eq!(cards(&["6c", "5c"]), game.dealer_cards);
    assert_eq!(cards(&["4c", "3c"]), game.player_cards);
    assert_eq!(cards(&["2c"]), *game.deck.cards());
}

#[test]
fn a_bet_over_the_balance_is_refused() {
    let mut game = Game {
        deck: Deck::of(cards(&["2c", "3c", "4c", "5c"])),
        dealer_cards: Vec::new(),
        player_cards: Vec::new(),
        player_money: 10,
        current_bet: 0,
    };

    assert_eq!(Err(Error::InsufficientChips), game.deal_hand(11));
    assert_eq!(10, game.player_money);
    assert_eq!(0, game.current_bet);
    assert_eq!(4, game.deck.len());
    assert!(game.dealer_cards.is_empty());

    assert_eq!(Ok(()), game.deal_hand(10));
    assert_eq!(0, game.player_money);
}

#[test]
fn a_new_game_has_a_full_deck_and_100_chips() {
    let game = Game::new();
    assert_eq!(52, game.deck.len());
    assert_eq!(100, game.player_money);
    assert_eq!(0, game.current_bet);
    assert!(game.player_cards.is_empty());
    assert!(game.dealer_cards.is_empty());
}

#[test]
fn hitting_adds_another_card_to_player_hand() {
    let mut game = Game {
        deck: Deck::new(),
        dealer_cards: cards(&["2d", "3h"]),
        player_cards: cards(&["Tc", "As"]),
        player_money: 0,
        current_bet: 0,
    };

    game.hit();

    assert_eq!(3, game.player_cards.len());
}

#[test]
fn hitting_takes_the_top_card() {
    let mut game = Game {
        deck: Deck::of(cards(&["9h", "7s"])),
        dealer_cards: cards(&["2d", "3h"]),
        player_cards: cards(&["Tc"]),
        player_money: 0,
        current_bet: 0,
    };

    game.hit();

    assert_eq!(cards(&["Tc", "7s"]), game.player_cards);
    assert_eq!(1, game.deck.len());
    assert_eq!(2, game.dealer_cards.len());
}

#[test]
fn player_stands_and_dealer_wins() {
    let mut game = Game {
        deck: Deck::of(cards(&["Th", "Tc"])),
        dealer_cards: cards(&["4h", "5h"]),
        player_cards: cards(&["Ts", "8s"]),
        player_money: 0,
        current_bet: 0,
    };

    assert_eq!(
        vec![
            DealerAction::Hit(Card::of("Tc")),
            DealerAction::Stand(19),
        ],
        game.stand()
    );
}

#[test]
fn player_stands_and_dealer_busts() {
    let mut game = Game {
        deck: Deck::of(cards(&["Td", "Tc"])),
        dealer_cards: cards(&["6h", "Th"]),
        player_cards: cards(&["Ts", "8s"]),
        player_money: 0,
        current_bet: 0,
    };

    assert_eq!(
        vec![
            DealerAction::Hit(Card::of("Tc")),
            DealerAction::Bust(26),
        ],
        game.stand()
    );
}

#[test]
fn player_stands_and_dealer_hits_multiple_times() {
    let mut game = Game {
        deck: Deck::of(cards(&["4s", "4h", "4c"])),
        dealer_cards: cards(&["2s", "3h"]),
        player_cards: cards(&["Ah", "Kh"]),
        player_money: 0,
        current_bet: 0,
    };

    assert_eq!(
        vec![
            DealerAction::Hit(Card::of("4c")),
            DealerAction::Hit(Card::of("4h")),
            DealerAction::Hit(Card::of("4s")),
            DealerAction::Stand(17),
        ],
        game.stand()
    );
}

#[test]
fn dealer_on_17_stands_without_drawing() {
    let mut game = Game {
        deck: Deck::of(cards(&["2c"])),
        dealer_cards: cards(&["Kh", "7d"]),
        player_cards: Vec::new(),
        player_money: 0,
        current_bet: 0,
    };

    assert_eq!(vec![DealerAction::Stand(17)], game.stand());
    assert_eq!(1, game.deck.len());
}

#[test]
fn ten_and_four_is_14() {
    assert_eq!(14, best_hand_value(vec![Ten, Four]))
}

#[test]
fn jack_and_queen_is_20() {
    assert_eq!(20, best_hand_value(vec![Jack, Queen]))
}

#[test]
fn simple_blackjack() {
    assert_eq!(21, best_hand_value(vec![King, Ace]))
}

#[test]
fn two_aces() {
    assert_eq!(12, best_hand_value(vec![Ace, Ace]))
}

#[test]
fn bust_with_two_aces() {
    assert_eq!(22, best_hand_value(vec![King, Ace, Ace]))
}

#[test]
fn four_aces_fold_greedily() {
    assert_eq!(14, best_hand_value(vec![Ace, Ace, Ace, Ace]))
}

#[test]
fn an_empty_hand_is_worth_nothing() {
    assert_eq!(0, best_hand_value(vec![]))
}

#[test]
fn an_ace_after_ten_counts_one() {
    assert_eq!(21, best_hand_value(vec![Ace, Ten, Jack]))
}

#[test]
fn standing_needs_enough_cards_for_the_dealer() {
    let short = Game {
        deck: Deck::of(cards(&["4h", "4c"])),
        dealer_cards: cards(&["2s", "3h"]),
        player_cards: Vec::new(),
        player_money: 0,
        current_bet: 0,
    };
    assert!(!short.can_stand());

    let enough = Game {
        deck: Deck::of(cards(&["4s", "4h", "4c"])),
        dealer_cards: cards(&["2s", "3h"]),
        player_cards: Vec::new(),
        player_money: 0,
        current_bet: 0,
    };
    assert!(enough.can_stand());

    let done = Game {
        deck: Deck::of(Vec::new()),
        dealer_cards: cards(&["Ks", "7h"]),
        player_cards: Vec::new(),
        player_money: 0,
        current_bet: 0,
    };
    assert!(done.can_stand());
}

#[test]
fn a_soft_hand_keeps_drawing_until_past_16() {
    let mut game = Game {
        deck: Deck::of(cards(&["9d", "Kc"])),
        dealer_cards: cards(&["Ah", "5h"]),
        player_cards: Vec::new(),
        player_money: 0,
        current_bet: 0,
    };
    assert!(game.can_stand());
    assert_eq!(
        vec![
            DealerAction::Hit(Card::of("Kc")),
            DealerAction::Hit(Card::of("9d")),
            DealerAction::Bust(25),
        ],
        game.stand()
    );
}
