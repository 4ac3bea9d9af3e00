use vstd::prelude::*;
use vstd::string::StringExecFns;
use crate::error::Error;

verus! {

/// Card suits. A suit only selects one of four sets of ranks; the order of
/// the variants carries no meaning for hand strength.
#[derive(PartialEq, Eq, PartialOrd, Ord, Clone, Copy, Hash, Debug, Structural)]
pub enum Suit {
    Club,
    Diamond,
    Heart,
    Spade,
}

impl Suit {
    /// All four suits.
    pub fn suits() -> (all: [Suit; 4])
        ensures
            all@ == seq![Suit::Spade, Suit::Heart, Suit::Diamond, Suit::Club],
    {
        [Suit::Spade, Suit::Heart, Suit::Diamond, Suit::Club]
    }

    /// The suit that a character names, in either case.
    pub open spec fn spec_from_char(c: char) -> Option<Suit> {
        if c == 'S' || c == 's' {
            Some(Suit::Spade)
        } else if c == 'H' || c == 'h' {
            Some(Suit::Heart)
        } else if c == 'D' || c == 'd' {
            Some(Suit::Diamond)
        } else if c == 'C' || c == 'c' {
            Some(Suit::Club)
        } else {
            None
        }
    }

    pub fn from_char(c: char) -> (suit: Option<Suit>)
        ensures
            suit == Self::spec_from_char(c),
    {
        match c {
            'S' | 's' => Some(Suit::Spade),
            'H' | 'h' => Some(Suit::Heart),
            'D' | 'd' => Some(Suit::Diamond),
            'C' | 'c' => Some(Suit::Club),
            _ => None,
        }
    }

    /// The upper-case letter of the suit.
    pub open spec fn spec_as_char(&self) -> char {
        match self {
            Suit::Spade => 'S',
            Suit::Heart => 'H',
            Suit::Diamond => 'D',
            Suit::Club => 'C',
        }
    }

    pub fn as_char(&self) -> (c: char)
        ensures
            c == self.spec_as_char(),
    {
        match self {
            Suit::Spade => 'S',
            Suit::Heart => 'H',
            Suit::Diamond => 'D',
            Suit::Club => 'C',
        }
    }

    /// The pictogram of the suit.
    pub open spec fn spec_as_icon_char(&self) -> char {
        match self {
            Suit::Spade => '♠',
            Suit::Heart => '♥',
            Suit::Diamond => '♦',
            Suit::Club => '♣',
        }
    }

    pub fn as_icon_char(&self) -> (c: char)
        ensures
            c == self.spec_as_icon_char(),
    {
        match self {
            Suit::Spade => '♠',
            Suit::Heart => '♥',
            Suit::Diamond => '♦',
            Suit::Club => '♣',
        }
    }

    /// The letter of the suit as a text.
    pub fn as_str(&self) -> (text: &'static str)
        ensures
            text@ == seq![self.spec_as_char()],
    {
        proof {
            reveal_strlit("S");
            reveal_strlit("H");
            reveal_strlit("D");
            reveal_strlit("C");
        }
        let text: &'static str = match self {
            Suit::Spade => "S",
            Suit::Heart => "H",
            Suit::Diamond => "D",
            Suit::Club => "C",
        };
        assert(text@ =~= seq![self.spec_as_char()]);
        text
    }

    /// The pictogram of the suit as a text.
    pub fn as_icon_str(&self) -> (text: &'static str)
        ensures
            text@ == seq![self.spec_as_icon_char()],
    {
        proof {
            reveal_strlit("♠");
            reveal_strlit("♥");
            reveal_strlit("♦");
            reveal_strlit("♣");
        }
        let text: &'static str = match self {
            Suit::Spade => "♠",
            Suit::Heart => "♥",
            Suit::Diamond => "♦",
            Suit::Club => "♣",
        };
        assert(text@ =~= seq![self.spec_as_icon_char()]);
        text
    }

    /// The position of the suit among the four, from 0 for clubs to 3 for
    /// spades.
    pub open spec fn spec_index(&self) -> int {
        match self {
            Suit::Club => 0,
            Suit::Diamond => 1,
            Suit::Heart => 2,
            Suit::Spade => 3,
        }
    }

    pub fn index(&self) -> (i: u8)
        ensures
            i == self.spec_index(),
            i < 4,
    {
        match self {
            Suit::Club => 0,
            Suit::Diamond => 1,
            Suit::Heart => 2,
            Suit::Spade => 3,
        }
    }
}

/// Card ranks, ordered from the Two up to the Ace.
#[derive(PartialEq, Eq, PartialOrd, Ord, Clone, Copy, Hash, Debug, Structural)]
pub enum Rank {
    Two,
    Three,
    Four,
    Five,
    Six,
    Seven,
    Eight,
    Nine,
    Ten,
    Jack,
    Queen,
    King,
    Ace,
}

impl Rank {
    /// All thirteen ranks, the Ace first.
    pub fn ranks() -> (all: [Rank; 13])
        ensures
            all@ == seq![
                Rank::Ace,
                Rank::Two,
                Rank::Three,
                Rank::Four,
                Rank::Five,
                Rank::Six,
                Rank::Seven,
                Rank::Eight,
                Rank::Nine,
                Rank::Ten,
                Rank::Jack,
                Rank::Queen,
                Rank::King,
            ],
    {
        [
            Rank::Ace,
            Rank::Two,
            Rank::Three,
            Rank::Four,
            Rank::Five,
            Rank::Six,
            Rank::Seven,
            Rank::Eight,
            Rank::Nine,
            Rank::Ten,
            Rank::Jack,
            Rank::Queen,
            Rank::King,
        ]
    }

    /// The ordinal of the rank: 2 for the Two up to 14 for the Ace.
    pub open spec fn spec_as_int(&self) -> int {
        match self {
            Rank::Two => 2,
            Rank::Three => 3,
            Rank::Four => 4,
            Rank::Five => 5,
            Rank::Six => 6,
            Rank::Seven => 7,
            Rank::Eight => 8,
            Rank::Nine => 9,
            Rank::Ten => 10,
            Rank::Jack => 11,
            Rank::Queen => 12,
            Rank::King => 13,
            Rank::Ace => 14,
        }
    }

    /// The rank with a given ordinal, if there is one.
    pub open spec fn spec_from_int(i: int) -> Option<Rank> {
        if i == 2 {
            Some(Rank::Two)
        } else if i == 3 {
            Some(Rank::Three)
        } else if i == 4 {
            Some(Rank::Four)
        } else if i == 5 {
            Some(Rank::Five)
        } else if i == 6 {
            Some(Rank::Six)
        } else if i == 7 {
            Some(Rank::Seven)
        } else if i == 8 {
            Some(Rank::Eight)
        } else if i == 9 {
            Some(Rank::Nine)
        } else if i == 10 {
            Some(Rank::Ten)
        } else if i == 11 {
            Some(Rank::Jack)
        } else if i == 12 {
            Some(Rank::Queen)
        } else if i == 13 {
            Some(Rank::King)
        } else if i == 14 {
            Some(Rank::Ace)
        } else {
            None
        }
    }

    /// The rank that a character names: a digit from 2 to 9, or one of the
    /// letters T, J, Q, K, A in either case.
    pub open spec fn spec_from_char(c: char) -> Option<Rank> {
        if c == 'A' || c == 'a' {
            Some(Rank::Ace)
        } else if c == 'K' || c == 'k' {
            Some(Rank::King)
        } else if c == 'Q' || c == 'q' {
            Some(Rank::Queen)
        } else if c == 'J' || c == 'j' {
            Some(Rank::Jack)
        } else if c == 'T' || c == 't' {
            Some(Rank::Ten)
        } else if '2' <= c && c <= '9' {
            Self::spec_from_int(c as int - '0' as int)
        } else {
            None
        }
    }

    pub fn from_char(c: char) -> (rank: Option<Rank>)
        ensures
            rank == Self::spec_from_char(c),
    {
        match c {
            'A' | 'a' => Some(Rank::Ace),
            '2' => Some(Rank::Two),
            '3' => Some(Rank::Three),
            '4' => Some(Rank::Four),
            '5' => Some(Rank::Five),
            '6' => Some(Rank::Six),
            '7' => Some(Rank::Seven),
            '8' => Some(Rank::Eight),
            '9' => Some(Rank::Nine),
            'T' | 't' => Some(Rank::Ten),
            'J' | 'j' => Some(Rank::Jack),
            'Q' | 'q' => Some(Rank::Queen),
            'K' | 'k' => Some(Rank::King),
            _ => None,
        }
    }

    /// The character of the rank, letters in upper case.
    pub open spec fn spec_as_char(&self) -> char {
        match self {
            Rank::Ace => 'A',
            Rank::Two => '2',
            Rank::Three => '3',
            Rank::Four => '4',
            Rank::Five => '5',
            Rank::Six => '6',
            Rank::Seven => '7',
            Rank::Eight => '8',
            Rank::Nine => '9',
            Rank::Ten => 'T',
            Rank::Jack => 'J',
            Rank::Queen => 'Q',
            Rank::King => 'K',
        }
    }

    pub fn as_char(&self) -> (c: char)
        ensures
            c == self.spec_as_char(),
    {
        match self {
            Rank::Ace => 'A',
            Rank::Two => '2',
            Rank::Three => '3',
            Rank::Four => '4',
            Rank::Five => '5',
            Rank::Six => '6',
            Rank::Seven => '7',
            Rank::Eight => '8',
            Rank::Nine => '9',
            Rank::Ten => 'T',
            Rank::Jack => 'J',
            Rank::Queen => 'Q',
            Rank::King => 'K',
        }
    }

    /// The character of the rank as a text.
    pub fn as_str(&self) -> (text: &'static str)
        ensures
            text@ == seq![self.spec_as_char()],
    {
        proof {
            reveal_strlit("A");
            reveal_strlit("2");
            reveal_strlit("3");
            reveal_strlit("4");
            reveal_strlit("5");
            reveal_strlit("6");
            reveal_strlit("7");
            reveal_strlit("8");
            reveal_strlit("9");
            reveal_strlit("T");
            reveal_strlit("J");
            reveal_strlit("Q");
            reveal_strlit("K");
        }
        let text: &'static str = match self {
            Rank::Ace => "A",
            Rank::Two => "2",
            Rank::Three => "3",
            Rank::Four => "4",
            Rank::Five => "5",
            Rank::Six => "6",
            Rank::Seven => "7",
            Rank::Eight => "8",
            Rank::Nine => "9",
            Rank::Ten => "T",
            Rank::Jack => "J",
            Rank::Queen => "Q",
            Rank::King => "K",
        };
        assert(text@ =~= seq![self.spec_as_char()]);
        text
    }

    /// The rank as a text: its character.
    pub fn to_string(&self) -> (text: String)
        ensures
            text@ == seq![self.spec_as_char()],
    {
        String::from_str(self.as_str())
    }

    pub fn from_int(i: i8) -> (rank: Option<Rank>)
        ensures
            rank == Self::spec_from_int(i as int),
            rank is Some <==> 2 <= i <= 14,
    {
        match i {
            14 => Some(Rank::Ace),
            2 => Some(Rank::Two),
            3 => Some(Rank::Three),
            4 => Some(Rank::Four),
            5 => Some(Rank::Five),
            6 => Some(Rank::Six),
            7 => Some(Rank::Seven),
            8 => Some(Rank::Eight),
            9 => Some(Rank::Nine),
            10 => Some(Rank::Ten),
            11 => Some(Rank::Jack),
            12 => Some(Rank::Queen),
            13 => Some(Rank::King),
            _ => None,
        }
    }

    pub fn as_int(&self) -> (i: i8)
        ensures
            i == self.spec_as_int(),
            2 <= i <= 14,
    {
        match *self {
            Rank::Two => 2,
            Rank::Three => 3,
            Rank::Four => 4,
            Rank::Five => 5,
            Rank::Six => 6,
            Rank::Seven => 7,
            Rank::Eight => 8,
            Rank::Nine => 9,
            Rank::Ten => 10,
            Rank::Jack => 11,
            Rank::Queen => 12,
            Rank::King => 13,
            Rank::Ace => 14,
        }
    }

    /// The position of the rank in a rank set: 0 for the Two up to 12 for
    /// the Ace.
    pub open spec fn spec_index(&self) -> int {
        self.spec_as_int() - 2
    }

    pub fn index(&self) -> (i: u8)
        ensures
            i == self.spec_index(),
            i < 13,
    {
        let ordinal: i8 = self.as_int();
        (ordinal - 2) as u8
    }

    /// The distance between two ranks.
    pub open spec fn spec_gap(&self, other: &Rank) -> int {
        if self.spec_as_int() >= other.spec_as_int() {
            self.spec_as_int() - other.spec_as_int()
        } else {
            other.spec_as_int() - self.spec_as_int()
        }
    }

    pub fn gap(&self, other: &Self) -> (distance: i8)
        ensures
            distance == self.spec_gap(other),
            0 <= distance <= 12,
    {
        let mine: i8 = self.as_int();
        let theirs: i8 = other.as_int();
        if mine >= theirs {
            mine - theirs
        } else {
            theirs - mine
        }
    }

    pub fn gap_with_ace(&self) -> (distance: i8)
        ensures
            distance == 14 - self.spec_as_int(),
            distance == Rank::Ace.spec_gap(self),
            0 <= distance <= 12,
    {
        Rank::Ace.as_int() - self.as_int()
    }
}

/// A playing card: a suit and a rank. Two cards are the same card exactly
/// when both agree.
#[derive(PartialEq, Eq, PartialOrd, Ord, Clone, Copy, Hash, Debug, Structural)]
pub struct Card {
    pub suit: Suit,
    pub rank: Rank,
}

impl Card {
    pub fn new(suit: Suit, rank: Rank) -> (card: Card)
        ensures
            card == (Card { suit, rank }),
    {
        Self { suit, rank }
    }

    /// What a card code means. The first character names the suit and the
    /// second the rank; anything after them is not read. A code of fewer
    /// than two characters is `UnexpectedCardChar`; otherwise a first
    /// character that names no suit is `UnexpectedSuitChar`, and otherwise a
    /// second character that names no rank is `UnexpectedRankChar`.
    pub open spec fn spec_parse(code: Seq<char>) -> Result<Card, Error> {
        if code.len() < 2 {
            Err(Error::UnexpectedCardChar)
        } else {
            match Suit::spec_from_char(code[0]) {
                None => Err(Error::UnexpectedSuitChar),
                Some(suit) => match Rank::spec_from_char(code[1]) {
                    None => Err(Error::UnexpectedRankChar),
                    Some(rank) => Ok(Card { suit, rank }),
                },
            }
        }
    }

    pub fn try_from_str(str: &str) -> (parsed: Result<Card, Error>)
        ensures
            parsed == Self::spec_parse(str@),
    {
        let mut chars = str.chars();
        let suit_char: char = match chars.next() {
            Some(c) => c,
            None => { return Err(Error::UnexpectedCardChar); },
        };
        let rank_char: char = match chars.next() {
            Some(c) => c,
            None => { return Err(Error::UnexpectedCardChar); },
        };
        let suit: Suit = match Suit::from_char(suit_char) {
            Some(s) => s,
            None => { return Err(Error::UnexpectedSuitChar); },
        };
        let rank: Rank = match Rank::from_char(rank_char) {
            Some(r) => r,
            None => { return Err(Error::UnexpectedRankChar); },
        };
        Ok(Card { suit, rank })
    }

    /// The two-letter code of the card: the letter of its suit, then the
    /// character of its rank.
    pub open spec fn spec_code(&self) -> Seq<char> {
        seq![self.suit.spec_as_char(), self.rank.spec_as_char()]
    }

    /// The card as it is shown: the pictogram of its suit, then the
    /// character of its rank.
    pub open spec fn spec_text(&self) -> Seq<char> {
        seq![self.suit.spec_as_icon_char(), self.rank.spec_as_char()]
    }

    /// The two-letter code of the card, which `try_from_str` reads back.
    pub fn to_code(&self) -> (code: String)
        ensures
            code@ == self.spec_code(),
    {
        let mut code: String = String::from_str(self.suit.as_str());
        code.append(self.rank.as_str());
        assert(code@ =~= self.spec_code());
        code
    }

    /// The card as it is shown.
    pub fn to_string(&self) -> (text: String)
        ensures
            text@ == self.spec_text(),
    {
        let mut text: String = String::from_str(self.suit.as_icon_str());
        text.append(self.rank.as_str());
        assert(text@ =~= self.spec_text());
        text
    }

    pub fn suit(&self) -> (suit: &Suit)
        ensures
            *suit == self.suit,
    {
        &self.suit
    }

    pub fn rank(&self) -> (rank: &Rank)
        ensures
            *rank == self.rank,
    {
        &self.rank
    }
}

/// The code of a card reads back as that card.
pub proof fn lemma_code_reads_back(card: Card)
    ensures
        Card::spec_parse(card.spec_code()) == Ok::<Card, Error>(card),
{
}

/// A code that names a card is written back, from that card, as a code that
/// names the same suit and the same rank: the same two characters, letters
/// in upper case.
pub proof fn lemma_round_trip(code: Seq<char>)
    requires
        Card::spec_parse(code) is Ok,
    ensures
        ({
            let card = Card::spec_parse(code).unwrap();
            &&& Card::spec_parse(card.spec_code()) == Ok::<Card, Error>(card)
            &&& Suit::spec_from_char(card.spec_code()[0]) == Suit::spec_from_char(code[0])
            &&& Rank::spec_from_char(card.spec_code()[1]) == Rank::spec_from_char(code[1])
        }),
{
}

/// Every rank is the rank of its character and of its ordinal, and every
/// suit the suit of its letter.
pub proof fn lemma_names_are_exact(suit: Suit, rank: Rank)
    ensures
        Suit::spec_from_char(suit.spec_as_char()) == Some(suit),
        Rank::spec_from_char(rank.spec_as_char()) == Some(rank),
        Rank::spec_from_int(rank.spec_as_int()) == Some(rank),
{
}

} // verus!
