use poker_rs::error::Error;
use poker_rs::poker::card::{Card, Rank, Suit};

#[test]
fn test_try_parse_card() {
    let expected = Card {
        suit: Suit::Spade,
        rank: Rank::Ace,
    };
    assert_eq!(expected, Card::try_from_str("SA").unwrap())
}

#[test]
fn test_rank_cmp() {
    assert!(Rank::Two < Rank::Ace);
    assert!(Rank::King < Rank::Ace);
    assert_eq!(Rank::Two, Rank::Two);
}

#[test]
fn test_suit_cmp() {
    assert!(Suit::Club < Suit::Diamond);
    assert!(Suit::Heart < Suit::Spade);
    assert_eq!(Suit::Diamond, Suit::Diamond);
}

#[test]
fn parse_is_case_insensitive() {
    assert_eq!(Card::new(Suit::Heart, Rank::Ten), Card::try_from_str("ht").unwrap());
    assert_eq!(Card::new(Suit::Heart, Rank::Ten), Card::try_from_str("HT").unwrap());
    assert_eq!(Card::new(Suit::Club, Rank::Two), Card::try_from_str("c2").unwrap());
    assert_eq!(Card::new(Suit::Diamond, Rank::King), Card::try_from_str("Dk").unwrap());
}

#[test]
fn parse_reads_two_characters_only() {
    assert_eq!(Card::new(Suit::Spade, Rank::Ace), Card::try_from_str("SAxyz").unwrap());
}

#[test]
fn parse_errors_are_distinct() {
    assert_eq!(Err(Error::UnexpectedCardChar), Card::try_from_str(""));
    assert_eq!(Err(Error::UnexpectedCardChar), Card::try_from_str("S"));
    assert_eq!(Err(Error::UnexpectedSuitChar), Card::try_from_str("XA"));
    assert_eq!(Err(Error::UnexpectedSuitChar), Card::try_from_str("XX"));
    assert_eq!(Err(Error::UnexpectedRankChar), Card::try_from_str("SX"));
    assert_eq!(Err(Error::UnexpectedRankChar), Card::try_from_str("s1"));
}

#[test]
fn every_card_code_round_trips() {
    for suit in Suit::suits() {
        for rank in Rank::ranks() {
            let card = Card::new(suit, rank);
            let code = card.to_code();
            assert_eq!(2, code.chars().count());
            assert_eq!(Ok(card), Card::try_from_str(&code));
            let lower = code.to_lowercase();
            let again = Card::try_from_str(&lower).unwrap();
            assert_eq!(code, again.to_code());
        }
    }
}

#[test]
fn codes_and_texts() {
    let card = Card::new(Suit::Spade, Rank::Ace);
    assert_eq!("SA", card.to_code());
    assert_eq!("♠A", card.to_string());
    assert_eq!("♦T", Card::new(Suit::Diamond, Rank::Ten).to_string());
    assert_eq!("Q", Rank::Queen.to_string());
    assert_eq!('H', Suit::Heart.as_char());
    assert_eq!('♣', Suit::Club.as_icon_char());
    assert_eq!('7', Rank::Seven.as_char());
}

#[test]
fn rank_ordinals() {
    assert_eq!(2, Rank::Two.as_int());
    assert_eq!(14, Rank::Ace.as_int());
    assert_eq!(Some(Rank::Ace), Rank::from_int(14));
    assert_eq!(Some(Rank::Two), Rank::from_int(2));
    assert_eq!(None, Rank::from_int(1));
    assert_eq!(None, Rank::from_int(15));
    assert_eq!(None, Rank::from_int(-3));
    for rank in Rank::ranks() {
        assert_eq!(Some(rank), Rank::from_int(rank.as_int()));
        assert_eq!(Some(rank), Rank::from_char(rank.as_char()));
        assert_eq!(rank.as_int() - 2, rank.index() as i8);
    }
    assert_eq!(None, Rank::from_char('1'));
    assert_eq!(None, Rank::from_char('x'));
    assert_eq!(None, Suit::from_char('x'));
    assert_eq!(Some(Suit::Club), Suit::from_char('c'));
}

#[test]
fn rank_gaps() {
    assert_eq!(3, Rank::Ace.gap(&Rank::Jack));
    assert_eq!(3, Rank::Jack.gap(&Rank::Ace));
    assert_eq!(0, Rank::Five.gap(&Rank::Five));
    assert_eq!(12, Rank::Two.gap(&Rank::Ace));
    assert_eq!(0, Rank::Ace.gap_with_ace());
    assert_eq!(6, Rank::Eight.gap_with_ace());
    assert_eq!(12, Rank::Two.gap_with_ace());
}

#[test]
fn all_suits_and_ranks() {
    assert_eq!([Suit::Spade, Suit::Heart, Suit::Diamond, Suit::Club], Suit::suits());
    let ranks = Rank::ranks();
    assert_eq!(13, ranks.len());
    assert_eq!(Rank::Ace, ranks[0]);
    assert_eq!(Rank::King, ranks[12]);
    assert_eq!(Suit::Heart, *Card::new(Suit::Heart, Rank::Two).suit());
    assert_eq!(Rank::Two, *Card::new(Suit::Heart, Rank::Two).rank());
}

#[test]
fn error_messages() {
    assert_eq!("Unable to parse rank", Error::UnexpectedRankChar.message());
    assert_eq!("Unable to parse suit", Error::UnexpectedSuitChar.message());
    assert_eq!("Hand must contain exactly 2 cards", Error::InvalidHandSize.message());
    assert_eq!("Invalid use of the plus modifier", Error::InvalidPlusModifier.message());
}
