use vstd::prelude::*;
use crate::error::Error;
use crate::poker::card::Card;
use crate::poker::hand::Hand;

verus! {

/// The classes of two-card starting hands.
#[derive(PartialEq, Eq, Debug, Clone, Copy, Structural)]
pub enum HandType {
    /// Two ranks in two suits.
    Offsuit,
    /// Two ranks in one suit.
    Suited,
    /// One rank twice.
    Paired,
    /// Two ranks, in whatever suits.
    UnPaired,
}

/// The class of a starting hand: it takes exactly two cards; the same rank
/// twice is a pair, and two ranks are suited or offsuit by their suits.
pub open spec fn hand_type(cards: Seq<Card>) -> Result<HandType, Error> {
    if cards.len() != 2 {
        Err(Error::InvalidHandSize)
    } else if cards[0].rank == cards[1].rank {
        Ok(HandType::Paired)
    } else if cards[0].suit == cards[1].suit {
        Ok(HandType::Suited)
    } else {
        Ok(HandType::Offsuit)
    }
}

/// Classifying a hand of two cards.
pub trait HandEvaluator: View<V = Seq<Card>> {
    fn cards(&self) -> (cards: &[Card])
        ensures
            cards@ == self@,
    ;

    fn evaluate(&self) -> (class: Result<HandType, Error>)
        ensures
            class == hand_type(self@),
    {
        let cards = self.cards();
        if cards.len() != 2 {
            return Err(Error::InvalidHandSize);
        }
        let c1 = &cards[0];
        let c2 = &cards[1];
        if c1.rank == c2.rank {
            return Ok(HandType::Paired);
        }
        if c1.suit == c2.suit {
            return Ok(HandType::Suited);
        }
        Ok(HandType::Offsuit)
    }
}

/// Implementation for `Hand`
impl HandEvaluator for Hand {
    fn cards(&self) -> (cards: &[Card]) {
        Hand::cards(self)
    }
}

} // verus!
