use poker_rs::error::Error;
use poker_rs::holdem::hand_evaluator::{HandEvaluator, HandType};
use poker_rs::poker::hand::Hand;

#[test]
fn test_suited() {
    let hand1 = Hand::new_from_strs(&["St", "s3"]).unwrap();
    let t = hand1.evaluate().unwrap();
    assert_eq!(HandType::Suited, t)
}

#[test]
fn test_off_suited() {
    let hand1 = Hand::new_from_strs(&["dt", "s3"]).unwrap();
    let t = hand1.evaluate().unwrap();
    assert_eq!(HandType::Offsuit, t)
}

#[test]
fn test_pair() {
    let hand1 = Hand::new_from_strs(&["dt", "st"]).unwrap();
    let t = hand1.evaluate().unwrap();
    assert_eq!(HandType::Paired, t)
}

#[test]
fn other_sizes_are_refused() {
    let one = Hand::new_from_strs(&["dt"]).unwrap();
    assert_eq!(Err(Error::InvalidHandSize), one.evaluate());
    let three = Hand::new_from_strs(&["dt", "st", "ht"]).unwrap();
    assert_eq!(Err(Error::InvalidHandSize), three.evaluate());
    let none = Hand::new_with_cards(Vec::new());
    assert_eq!(Err(Error::InvalidHandSize), none.evaluate());
}
