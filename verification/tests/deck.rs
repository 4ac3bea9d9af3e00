use poker_rs::poker::card::{Card, Rank, Suit};
use poker_rs::poker::deck::Deck;

#[test]
fn test_contains_in() {
    let d = Deck::default();
    assert!(d.contains(&Card {
        suit: Suit::Spade,
        rank: Rank::Ace,
    }));
}

#[test]
fn test_remove() {
    let mut d = Deck::default();
    let c = Card {
        suit: Suit::Heart,
        rank: Rank::Queen,
    };
    assert!(d.contains(&c));
    assert!(d.remove(&c));
    assert!(!d.contains(&c));
    assert!(!d.remove(&c));
}

#[test]
fn full_deck_has_every_card_once() {
    let d = Deck::default();
    assert_eq!(52, d.len());
    assert!(!d.is_empty());
    let cards = d.get_all_cards();
    assert_eq!(52, cards.len());
    for suit in Suit::suits() {
        for rank in Rank::ranks() {
            let card = Card::new(suit, rank);
            assert!(d.contains(&card));
            assert_eq!(1, cards.iter().filter(|c| **c == card).count());
        }
    }
    assert_eq!(52, d.iter().len());
}

#[test]
fn insert_is_idempotent() {
    let mut d = Deck::new();
    assert!(d.is_empty());
    assert_eq!(0, d.len());
    let card = Card::new(Suit::Club, Rank::Two);
    assert!(d.insert(card));
    assert!(!d.insert(card));
    assert_eq!(1, d.len());
    assert_eq!(vec![card], d.get_all_cards());
    assert_eq!("♣2", d.to_string());
}

#[test]
fn dealing_empties_the_deck() {
    let mut d = Deck::default();
    let mut seen: Vec<Card> = Vec::new();
    while let Some(card) = d.deal_card() {
        assert!(!seen.contains(&card));
        assert!(!d.contains(&card));
        seen.push(card);
        assert_eq!(52 - seen.len(), d.len());
    }
    assert_eq!(52, seen.len());
    assert!(d.is_empty());
    assert_eq!(None, d.deal_card());
}
