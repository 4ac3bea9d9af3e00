use poker_rs::error::Error;
use poker_rs::poker::card::{Card, Rank, Suit};
use poker_rs::poker::hand::Hand;

#[test]
fn new_hand() {
    let hand = vec!["SA", "ht", "D9", "c2"];
    assert!(Hand::new_from_strs(&hand).is_ok());

    let hand2 = vec!["sa", "sx"];
    assert!(Hand::new_from_strs(&hand2).is_err());
}

#[test]
fn new_hand_reports_the_first_failure() {
    let hand = Hand::new_from_strs(&["sa", "xx", "s"]);
    assert_eq!(Some(Error::UnexpectedSuitChar), hand.err());
    let hand = Hand::new_from_strs(&["sa", "s", "xx"]);
    assert_eq!(Some(Error::UnexpectedCardChar), hand.err());
    let hand = Hand::new_from_strs(&["sa", "s1"]);
    assert_eq!(Some(Error::UnexpectedRankChar), hand.err());
}

#[test]
fn hand_keeps_its_cards_in_order() {
    let hand = Hand::new_from_strs(&["SA", "ht", "D9", "c2"]).unwrap();
    let expected = vec![
        Card::new(Suit::Spade, Rank::Ace),
        Card::new(Suit::Heart, Rank::Ten),
        Card::new(Suit::Diamond, Rank::Nine),
        Card::new(Suit::Club, Rank::Two),
    ];
    assert_eq!(&expected[..], hand.cards());
    assert_eq!(4, hand.len());
    assert!(!hand.is_empty());
    assert_eq!(expected, hand.iter().copied().collect::<Vec<Card>>());
    assert_eq!("♠A, ♥T, ♦9, ♣2", hand.to_string());
}

#[test]
fn hand_mutation() {
    let mut hand = Hand::new_with_cards(Vec::new());
    assert!(hand.is_empty());
    assert_eq!("", hand.to_string());
    let ace = Card::new(Suit::Spade, Rank::Ace);
    let ten = Card::new(Suit::Heart, Rank::Ten);
    let two = Card::new(Suit::Club, Rank::Two);
    hand.push(ace).push(ten).push(two);
    assert_eq!(&[ace, ten, two][..], hand.cards());
    hand.remove(1);
    assert_eq!(&[ace, two][..], hand.cards());
    hand.truncate(5);
    assert_eq!(2, hand.len());
    hand.truncate(1);
    assert_eq!(&[ace][..], hand.cards());
    hand.truncate(0);
    assert!(hand.is_empty());
}

#[test]
fn long_hands_break_lines() {
    let mut hand = Hand::new_with_cards(Vec::new());
    for rank in Rank::ranks().iter().take(11) {
        hand.push(Card::new(Suit::Club, *rank));
    }
    assert_eq!("♣A, ♣2, ♣3, ♣4, ♣5, ♣6, ♣7, ♣8, ♣9, ♣T\n♣J", hand.to_string());
}

#[test]
fn repeated_cards_are_found() {
    assert!(Hand::new_from_strs(&["SA", "ht", "D9", "c2"]).unwrap().all_distinct());
    assert!(!Hand::new_from_strs(&["SA", "ht", "sa"]).unwrap().all_distinct());
    assert!(!Hand::new_from_strs(&["ht", "HT"]).unwrap().all_distinct());
    assert!(Hand::new_with_cards(Vec::new()).all_distinct());
}
