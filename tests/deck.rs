use blackjack::card::{Card, Rank, Suit};
use blackjack::deck::Deck;

#[test]
fn a_new_deck_has_52_cards() {
    let d = Deck::new();

    assert_eq!(52, d.cards().len())
}

#[test]
fn a_new_deck_has_13_of_each_suit() {
    let d = Deck::new();
    let cards = d.cards();

    for suit in Suit::all().iter() {
        assert_eq!(13, cards.iter().filter(|c| c.suit == *suit).count())
    }
}

#[test]
fn a_new_deck_has_4_of_each_rank() {
    let d = Deck::new();
    let cards = d.cards();

    for rank in Rank::all().iter() {
        assert_eq!(4, cards.iter().filter(|c| c.rank == *rank).count());
    }
}

#[test]
fn new_decks_should_be_shuffled() {
    let d1 = Deck::new();
    let d2 = Deck::new();

    assert_ne!(d1, d2);
}

#[test]
fn a_new_deck_holds_every_card_once() {
    let d = Deck::new();
    for suit in Suit::all().iter() {
        for rank in Rank::all().iter() {
            let c = Card::new(*rank, *suit);
            assert_eq!(1, d.cards().iter().filter(|x| **x == c).count());
        }
    }
}

#[test]
fn drawing_takes_the_last_card() {
    let mut d = Deck::of(vec![Card::of("2h"), Card::of("Ks")]);
    assert_eq!(Some(Card::of("Ks")), d.draw());
    assert_eq!(1, d.len());
    assert_eq!(Some(Card::of("2h")), d.draw());
    assert_eq!(0, d.len());
}

#[test]
fn drawing_from_an_empty_deck_gives_nothing() {
    let mut d = Deck::of(vec![]);
    assert_eq!(None, d.draw());
    assert_eq!(0, d.len());
}

#[test]
fn a_fresh_deck_loses_one_card_per_draw() {
    let mut d = Deck::new();
    let c = d.draw();
    assert!(c.is_some());
    assert_eq!(51, d.len());
}
