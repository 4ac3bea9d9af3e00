use vstd::prelude::*;
use std::slice::Iter;
use vstd::std_specs::iter::IteratorSpec;
use vstd::std_specs::slice::axiom_spec_slice_iter;
use vstd::string::StringExecFns;
use crate::error::Error;
use super::card::Card;

verus! {

/// An ordered sequence of cards.
#[derive(Debug)]
pub struct Hand(Vec<Card>);

impl View for Hand {
    type V = Seq<Card>;

    closed spec fn view(&self) -> Seq<Card> {
        self.0@
    }
}

/// The cards that a list of card codes names, or the failure of the first
/// code that names none.
pub open spec fn parse_all(codes: Seq<Seq<char>>) -> Result<Seq<Card>, Error>
    decreases codes.len(),
{
    if codes.len() == 0 {
        Ok(Seq::empty())
    } else {
        match parse_all(codes.drop_last()) {
            Err(e) => Err(e),
            Ok(cards) => match Card::spec_parse(codes.last()) {
                Err(e) => Err(e),
                Ok(card) => Ok(cards.push(card)),
            },
        }
    }
}

/// What stands before the card at a position where a list of cards is
/// shown: nothing before the first, a line break before every tenth after
/// it, and else a comma and a blank.
pub open spec fn separator(position: int) -> Seq<char> {
    if position == 0 {
        Seq::empty()
    } else if position % 10 == 0 {
        seq!['\n']
    } else {
        seq![',', ' ']
    }
}

/// A list of cards as it is shown: every card as it is shown, with the
/// separators between them.
pub open spec fn cards_text(cards: Seq<Card>) -> Seq<char>
    decreases cards.len(),
{
    if cards.len() == 0 {
        Seq::empty()
    } else {
        cards_text(cards.drop_last()) + separator(cards.len() - 1) + cards.last().spec_text()
    }
}

/// Writes a list of cards as it is shown.
pub fn write_cards(cards: &[Card]) -> (text: String)
    ensures
        text@ == cards_text(cards@),
{
    let mut text: String = String::new();
    let mut i: usize = 0;
    proof {
        reveal_strlit("\n");
        reveal_strlit(", ");
    }
    while i < cards.len()
        invariant
            i <= cards@.len(),
            text@ == cards_text(cards@.take(i as int)),
            "\n"@ =~= seq!['\n'],
            ", "@ =~= seq![',', ' '],
        decreases cards@.len() - i,
    {
        proof {
            assert(cards@.take(i + 1).drop_last() == cards@.take(i as int));
            assert(cards@.take(i + 1).last() == cards@[i as int]);
        }
        if i > 0 {
            if i % 10 == 0 {
                text.append("\n");
            } else {
                text.append(", ");
            }
        }
        let shown: String = cards[i].to_string();
        text.append(shown.as_str());
        i += 1;
    }
    proof {
        assert(cards@.take(i as int) == cards@);
    }
    text
}

/// The characters of each code of a list.
pub open spec fn code_views(strs: Seq<&str>) -> Seq<Seq<char>> {
    Seq::new(strs.len(), |i: int| strs[i]@)
}

impl Hand {
    pub fn new_with_cards(cards: Vec<Card>) -> (hand: Hand)
        ensures
            hand@ == cards@,
    {
        Self(cards)
    }

    pub fn new_from_strs(strs: &[&str]) -> (hand: Result<Hand, Error>)
        ensures
            match parse_all(code_views(strs@)) {
                Ok(cards) => hand matches Ok(h) && h@ == cards,
                Err(e) => hand matches Err(f) && f == e,
            },
    {
        let mut cards: Vec<Card> = Vec::new();
        let mut i: usize = 0;
        while i < strs.len()
            invariant
                i <= strs.len(),
                parse_all(code_views(strs@).take(i as int)) == Ok::<Seq<Card>, Error>(cards@),
            decreases strs.len() - i,
        {
            let ghost codes = code_views(strs@);
            proof {
                assert(codes.take(i + 1).drop_last() == codes.take(i as int));
                assert(codes.take(i + 1).last() == strs@[i as int]@);
            }
            match Card::try_from_str(strs[i]) {
                Ok(card) => {
                    cards.push(card);
                },
                Err(e) => {
                    proof {
                        lemma_parse_all_fails(codes, i + 1);
                    }
                    return Err(e);
                },
            }
            i += 1;
        }
        proof {
            assert(code_views(strs@).take(i as int) == code_views(strs@));
        }
        Ok(Self(cards))
    }

    pub fn cards(&self) -> (cards: &[Card])
        ensures
            cards@ == self@,
    {
        self.0.as_slice()
    }

    pub fn len(&self) -> (n: usize)
        ensures
            n == self@.len(),
    {
        self.0.len()
    }

    pub fn push(&mut self, c: Card) -> (hand: &mut Self)
        ensures
            hand@ == old(self)@.push(c),
            *final(self) == *final(hand),
    {
        self.0.push(c);
        self
    }

    /// Takes out the card at a position. The position is inside the hand.
    pub fn remove(&mut self, len: usize) -> (hand: &mut Self)
        requires
            len < old(self)@.len(),
        ensures
            hand@ == old(self)@.remove(len as int),
            *final(self) == *final(hand),
    {
        self.0.remove(len);
        self
    }

    pub fn truncate(&mut self, len: usize) -> (hand: &mut Self)
        ensures
            hand@ == if len <= old(self)@.len() {
                old(self)@.take(len as int)
            } else {
                old(self)@
            },
            *final(self) == *final(hand),
    {
        self.0.truncate(len);
        self
    }

    pub fn is_empty(&self) -> (empty: bool)
        ensures
            empty == (self@.len() == 0),
    {
        self.0.len() == 0
    }

    /// Whether no card occurs twice in the hand, as ranking it takes.
    pub fn all_distinct(&self) -> (distinct: bool)
        ensures
            distinct == self@.no_duplicates(),
    {
        let mut i: usize = 0;
        while i < self.0.len()
            invariant
                i <= self@.len(),
                forall|a: int, b: int| 0 <= a < b < i ==> self@[a] != self@[b],
            decreases self@.len() - i,
        {
            let mut j: usize = 0;
            while j < i
                invariant
                    j <= i < self@.len(),
                    forall|a: int| 0 <= a < j ==> self@[a] != self@[i as int],
                decreases i - j,
            {
                if self.0[j] == self.0[i] {
                    return false;
                }
                j += 1;
            }
            i += 1;
        }
        true
    }

    /// The hand as it is shown.
    pub fn to_string(&self) -> (text: String)
        ensures
            text@ == cards_text(self@),
    {
        write_cards(self.0.as_slice())
    }

    /// Walks the cards of the hand, in their order.
    pub fn iter(&self) -> (cards: Iter<'_, Card>)
        ensures
            cards.remaining().unref() == self@,
    {
        let slice = self.0.as_slice();
        let cards = slice.iter();
        proof {
            axiom_spec_slice_iter(slice);
            assert(slice@.as_ref().unref() =~= self@);
        }
        cards
    }
}

/// Once a code fails, the whole list fails with it.
proof fn lemma_parse_all_fails(codes: Seq<Seq<char>>, upto: int)
    requires
        0 <= upto <= codes.len(),
        parse_all(codes.take(upto)) is Err,
    ensures
        parse_all(codes) == parse_all(codes.take(upto)),
    decreases codes.len() - upto,
{
    if upto == codes.len() {
        assert(codes.take(upto) == codes);
    } else {
        assert(codes.take(upto + 1).drop_last() == codes.take(upto));
        lemma_parse_all_fails(codes, upto + 1);
    }
}

} // verus!
