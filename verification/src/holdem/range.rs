use vstd::prelude::*;
use vstd::string::StrSliceExecFns;
use crate::poker::card::Rank;
use super::hand_evaluator::HandType;

verus! {

/// The deals of two cards that one offsuit combination of two ranks
/// stands for.
pub const SPEC_OFF_SUIT_COMBINATIONS: u16 = 12;

/// The deals that one suited combination of two ranks stands for.
pub const SPEC_SUITED_COMBINATIONS: u16 = 4;

/// The deals that one pair stands for.
pub const SPEC_PAIRED_COMBINATIONS: u16 = 6;

/// The deals that two ranks stand for where the suits are left open.
pub const SPEC_UNPAIRED_COMBINATIONS: u16 = 16;

/// All the deals of two cards from fifty-two.
pub const HAND_COMBINATIONS: u16 = 1326;

/// Whether a text begins with two characters that name ranks.
pub open spec fn starts_with_ranks(s: Seq<char>) -> bool {
    &&& s.len() >= 2
    &&& Rank::spec_from_char(s[0]) is Some
    &&& Rank::spec_from_char(s[1]) is Some
}

/// The class that a range token names: the same rank twice is a pair; two
/// ranks are offsuit with an `o` behind them, suited with an `s`, in either
/// case, and otherwise left open.
pub open spec fn token_class(s: Seq<char>) -> HandType {
    if Rank::spec_from_char(s[0]) == Rank::spec_from_char(s[1]) {
        HandType::Paired
    } else if s.len() > 2 && (s[2] == 'o' || s[2] == 'O') {
        HandType::Offsuit
    } else if s.len() > 2 && (s[2] == 's' || s[2] == 'S') {
        HandType::Suited
    } else {
        HandType::UnPaired
    }
}

/// The two ranks of a range token and its class.
pub open spec fn spec_parse_cards(s: Seq<char>) -> (Rank, Rank, HandType) {
    (Rank::spec_from_char(s[0]).unwrap(), Rank::spec_from_char(s[1]).unwrap(), token_class(s))
}

/// Reads the two ranks and the class of a range token. The token begins
/// with its two ranks.
pub fn parse_cards(s: &str) -> (parsed: (Rank, Rank, HandType))
    requires
        starts_with_ranks(s@),
    ensures
        parsed == spec_parse_cards(s@),
{
    let len: usize = s.unicode_len();
    let first: char = s.get_char(0);
    let second: char = s.get_char(1);
    let rank1: Rank = match Rank::from_char(first) {
        Some(r) => r,
        None => Rank::Two,
    };
    let rank2: Rank = match Rank::from_char(second) {
        Some(r) => r,
        None => Rank::Two,
    };
    let mark: char = if len > 2 {
        s.get_char(2)
    } else {
        ' '
    };
    let hand_type: HandType = if rank1 == rank2 {
        HandType::Paired
    } else if mark == 'o' || mark == 'O' {
        HandType::Offsuit
    } else if mark == 's' || mark == 'S' {
        HandType::Suited
    } else {
        HandType::UnPaired
    };
    (rank1, rank2, hand_type)
}

/// The deals that a token with the plus modifier stands for: for a pair,
/// every pair from its rank up to the Ace; else, for each step between the
/// two ranks, the deals of its class.
pub open spec fn plus_range_count(s: Seq<char>) -> int {
    let (rank1, rank2, class) = spec_parse_cards(s);
    match class {
        HandType::Offsuit => 12 * rank1.spec_gap(&rank2),
        HandType::Suited => 4 * rank1.spec_gap(&rank2),
        HandType::Paired => 6 * (14 - rank1.spec_as_int() + 1),
        HandType::UnPaired => 16 * rank1.spec_gap(&rank2),
    }
}

/// The deals that a token without the plus modifier stands for.
pub open spec fn single_range_count(s: Seq<char>) -> int {
    match token_class(s) {
        HandType::Offsuit => 12,
        HandType::Suited => 4,
        HandType::Paired => 6,
        HandType::UnPaired => 16,
    }
}

pub fn calculate_plus_range(s: &str) -> (count: u16)
    requires
        starts_with_ranks(s@),
    ensures
        count == plus_range_count(s@),
{
    let (rank1, rank2, hand_type) = parse_cards(s);
    match hand_type {
        HandType::Offsuit => {
            let count: u16 = rank1.gap(&rank2) as u16;
            SPEC_OFF_SUIT_COMBINATIONS * count
        },
        HandType::Suited => {
            let count: u16 = rank1.gap(&rank2) as u16;
            SPEC_SUITED_COMBINATIONS * count
        },
        HandType::Paired => {
            let count: u16 = (rank1.gap_with_ace() + 1) as u16;
            SPEC_PAIRED_COMBINATIONS * count
        },
        HandType::UnPaired => {
            let count: u16 = rank1.gap(&rank2) as u16;
            SPEC_UNPAIRED_COMBINATIONS * count
        },
    }
}

pub fn calculate_single_range(s: &str) -> (count: u16)
    requires
        starts_with_ranks(s@),
    ensures
        count == single_range_count(s@),
{
    let (_, _, hand_type) = parse_cards(s);
    match hand_type {
        HandType::Offsuit => SPEC_OFF_SUIT_COMBINATIONS,
        HandType::Suited => SPEC_SUITED_COMBINATIONS,
        HandType::Paired => SPEC_PAIRED_COMBINATIONS,
        HandType::UnPaired => SPEC_UNPAIRED_COMBINATIONS,
    }
}

} // verus!
