use vstd::prelude::*;

verus! {

/// The failures that the library reports. Every one of them is returned as
/// a value to the immediate caller.
#[derive(Debug, Hash, Clone, Copy, PartialEq, Eq, Structural)]
pub enum Error {
    /// A character does not name a rank.
    UnexpectedRankChar,
    /// A character does not name a suit.
    UnexpectedSuitChar,
    /// The text ended, or did not match, where a character was expected.
    UnexpectedCardChar,
    /// The two-card classifier was given another number of cards.
    InvalidHandSize,
    /// A Hold'em hand holds more than seven cards.
    HoldemHandSize,
    /// A range is marked offsuit while its cards share a suit.
    OffSuitWithMatchingSuit,
    /// A range is marked suited while its cards do not share a suit.
    SuitedWithNoMatchingSuit,
    /// The plus modifier stands where it has no meaning.
    InvalidPlusModifier,
    /// The gap between the cards of a range is not constant.
    InvalidGap,
    /// A pair is marked suited.
    InvalidSuitedPairs,
}

impl Error {
    /// The message that belongs to each failure.
    pub fn message(&self) -> (text: &'static str)
        ensures
            text@ == self.spec_message(),
    {
        match self {
            Error::UnexpectedRankChar => "Unable to parse rank",
            Error::UnexpectedSuitChar => "Unable to parse suit",
            Error::UnexpectedCardChar => "Error reading characters while parsing",
            Error::InvalidHandSize => "Hand must contain exactly 2 cards",
            Error::HoldemHandSize => "Holdem hands should never have more than 7 cards in them.",
            Error::OffSuitWithMatchingSuit => "Hand range can't be offsuit while cards are suiterd",
            Error::SuitedWithNoMatchingSuit => "Hand range is suited while cards are not.",
            Error::InvalidPlusModifier => "Invalid use of the plus modifier",
            Error::InvalidGap => "The gap between cards must be constant when defining a hand range.",
            Error::InvalidSuitedPairs => "Pairs can't be suited.",
        }
    }

    /// The characters of `message`.
    pub open spec fn spec_message(&self) -> Seq<char> {
        match self {
            Error::UnexpectedRankChar => "Unable to parse rank"@,
            Error::UnexpectedSuitChar => "Unable to parse suit"@,
            Error::UnexpectedCardChar => "Error reading characters while parsing"@,
            Error::InvalidHandSize => "Hand must contain exactly 2 cards"@,
            Error::HoldemHandSize => "Holdem hands should never have more than 7 cards in them."@,
            Error::OffSuitWithMatchingSuit => "Hand range can't be offsuit while cards are suiterd"@,
            Error::SuitedWithNoMatchingSuit => "Hand range is suited while cards are not."@,
            Error::InvalidPlusModifier => "Invalid use of the plus modifier"@,
            Error::InvalidGap => "The gap between cards must be constant when defining a hand range."@,
            Error::InvalidSuitedPairs => "Pairs can't be suited."@,
        }
    }
}

/// What the library's functions return where they can fail.
pub type Result<T, E = Error> = core::result::Result<T, E>;

} // verus!
