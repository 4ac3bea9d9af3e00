use vstd::prelude::*;
use std::collections::HashSet;
use vstd::std_specs::hash::{group_hash_axioms, spec_hash_keys_iter};
use vstd::std_specs::iter::IteratorSpec;
use super::card::{Card, Rank, Suit};
use super::hand::{cards_text, write_cards};

verus! {

broadcast use group_hash_axioms;

/// The number of a card among the fifty-two: thirteen for each suit below
/// its own, and the position of its rank.
pub open spec fn card_code(card: Card) -> int {
    card.suit.spec_index() * 13 + card.rank.spec_index()
}

/// The card with a given number.
pub open spec fn card_of(code: int) -> Card {
    Card {
        suit: if code / 13 == 0 {
            Suit::Club
        } else if code / 13 == 1 {
            Suit::Diamond
        } else if code / 13 == 2 {
            Suit::Heart
        } else {
            Suit::Spade
        },
        rank: Rank::spec_from_int(code % 13 + 2).unwrap(),
    }
}

/// Every card has a number below fifty-two, and is the card of its number.
pub proof fn lemma_card_code(card: Card)
    ensures
        0 <= card_code(card) < 52,
        card_of(card_code(card)) == card,
{
}

/// Every number below fifty-two is the number of its card.
pub proof fn lemma_card_of(code: int)
    requires
        0 <= code < 52,
    ensures
        card_code(card_of(code)) == code,
{
}

fn encode(card: &Card) -> (code: u8)
    ensures
        code == card_code(*card),
        code < 52,
{
    card.suit.index() * 13 + card.rank.index()
}

fn decode(code: u8) -> (card: Card)
    requires
        code < 52,
    ensures
        card == card_of(code as int),
        card_code(card) == code,
{
    let suit: Suit = match code / 13 {
        0 => Suit::Club,
        1 => Suit::Diamond,
        2 => Suit::Heart,
        _ => Suit::Spade,
    };
    let ordinal: u8 = code % 13 + 2;
    let rank: Rank = match Rank::from_int(ordinal as i8) {
        Some(r) => r,
        None => Rank::Two,
    };
    Card { suit, rank }
}

/// A set of cards: no card is in it twice.
pub struct Deck {
    cards: HashSet<u8>,
}

impl View for Deck {
    type V = Set<Card>;

    closed spec fn view(&self) -> Set<Card> {
        Set::new(|card: Card| self.cards@.contains(card_code(card) as u8))
    }
}

impl Deck {
    /// What every deck keeps: it holds numbers of cards only. `new` and
    /// `default` make such a deck, and every operation keeps it so.
    pub closed spec fn well_formed(&self) -> bool {
        forall|code: u8| self.cards@.contains(code) ==> code < 52
    }

    /// The cards of a deck are as many as their numbers.
    proof fn lemma_size(&self)
        requires
            self.well_formed(),
        ensures
            self@.finite(),
            self@.len() == self.cards@.len(),
    {
        let f = |code: u8| card_of(code as int);
        assert forall|a: u8, b: u8|
            self.cards@.contains(a) && self.cards@.contains(b) && #[trigger] f(a) == #[trigger] f(
                b,
            ) implies a == b by {
            lemma_card_of(a as int);
            lemma_card_of(b as int);
        }
        assert(self.cards@.map(f) =~= self@) by {
            assert forall|card: Card| self@.contains(card) implies self.cards@.map(f).contains(
                card,
            ) by {
                lemma_card_code(card);
                assert(f(card_code(card) as u8) == card);
            }
            assert forall|card: Card| self.cards@.map(f).contains(card) implies self@.contains(
                card,
            ) by {
                let code = choose|code: u8| self.cards@.contains(code) && f(code) == card;
                lemma_card_of(code as int);
            }
        }
        let keys = spec_hash_keys_iter(&self.cards).remaining().unref();
        vstd::seq_lib::seq_to_set_is_finite(keys);
        assert(keys.to_set() == self.cards@);
        vstd::set_lib::lemma_map_size(self.cards@, self@, f);
    }

    /// A deck without cards.
    pub fn new() -> (deck: Deck)
        ensures
            deck@ == Set::<Card>::empty(),
            deck.well_formed(),
    {
        let deck = Self { cards: HashSet::new() };
        assert(deck@ =~= Set::<Card>::empty());
        deck
    }

    /// Puts a card into the deck. Says whether it was new.
    pub fn insert(&mut self, c: Card) -> (added: bool)
        requires
            old(self).well_formed(),
        ensures
            final(self).well_formed(),
            final(self)@ == old(self)@.insert(c),
            added == !old(self)@.contains(c),
    {
        let code: u8 = encode(&c);
        let added: bool = self.cards.insert(code);
        proof {
            assert forall|other: Card| self@.contains(other) == old(self)@.insert(c).contains(
                other,
            ) by {
                lemma_card_code(other);
                lemma_card_code(c);
            }
            assert(self@ =~= old(self)@.insert(c));
        }
        added
    }

    /// Takes a card out of the deck. Says whether it was there.
    pub fn remove(&mut self, c: &Card) -> (removed: bool)
        requires
            old(self).well_formed(),
        ensures
            final(self).well_formed(),
            final(self)@ == old(self)@.remove(*c),
            removed == old(self)@.contains(*c),
    {
        let code: u8 = encode(c);
        let removed: bool = self.cards.remove(&code);
        proof {
            assert forall|other: Card| self@.contains(other) == old(self)@.remove(*c).contains(
                other,
            ) by {
                lemma_card_code(other);
                lemma_card_code(*c);
            }
            assert(self@ =~= old(self)@.remove(*c));
        }
        removed
    }

    pub fn len(&self) -> (n: usize)
        requires
            self.well_formed(),
        ensures
            n == self@.len(),
            self@.finite(),
    {
        proof {
            self.lemma_size();
        }
        self.cards.len()
    }

    pub fn is_empty(&self) -> (empty: bool)
        requires
            self.well_formed(),
        ensures
            empty == (self@ == Set::<Card>::empty()),
    {
        proof {
            self.lemma_size();
            if self@ == Set::<Card>::empty() {
                assert(self@.len() == 0);
            }
            if self.cards@.len() == 0 {
                assert(self@ =~= Set::<Card>::empty());
            }
        }
        self.cards.len() == 0
    }

    pub fn contains(&self, c: &Card) -> (held: bool)
        ensures
            held == self@.contains(*c),
    {
        let code: u8 = encode(c);
        self.cards.contains(&code)
    }

    /// The cards of the deck, each once, in no particular order.
    pub fn iter(&self) -> (cards: Vec<Card>)
        requires
            self.well_formed(),
        ensures
            cards@.no_duplicates(),
            cards@.to_set() == self@,
    {
        self.get_all_cards()
    }

    /// The cards of the deck, each once, in no particular order.
    pub fn get_all_cards(&self) -> (cards: Vec<Card>)
        requires
            self.well_formed(),
        ensures
            cards@.no_duplicates(),
            cards@.to_set() == self@,
    {
        let mut out: Vec<Card> = Vec::new();
        let ghost all: Seq<&u8> = spec_hash_keys_iter(&self.cards).remaining();
        for code in it: self.cards.iter()
            invariant
                self.well_formed(),
                it.seq() == all,
                all.unref().to_set() == self.cards@,
                out@.len() == it.index(),
                forall|k: int| 0 <= k < out@.len() ==> #[trigger] out@[k] == card_of(*all[k] as int),
        {
            proof {
                assert(all.unref()[it.index()] == *code);
                assert(all.unref().to_set().contains(*code));
            }
            out.push(decode(*code));
        }
        proof {
            assert(out@.len() == all.len());
            assert forall|i: int, j: int| 0 <= i < j < out@.len() implies out@[i] != out@[j] by {
                assert(all.unref()[i] == *all[i] && all.unref()[j] == *all[j]);
                assert(self.cards@.contains(*all[i]) && self.cards@.contains(*all[j])) by {
                    assert(all.unref().to_set().contains(all.unref()[i]));
                    assert(all.unref().to_set().contains(all.unref()[j]));
                }
                lemma_card_of(*all[i] as int);
                lemma_card_of(*all[j] as int);
            }
            assert forall|card: Card| out@.to_set().contains(card) == self@.contains(card) by {
                lemma_card_code(card);
                if out@.to_set().contains(card) {
                    let k = choose|k: int| 0 <= k < out@.len() && out@[k] == card;
                    assert(all.unref()[k] == *all[k]);
                    assert(all.unref().to_set().contains(all.unref()[k]));
                    lemma_card_of(*all[k] as int);
                }
                if self@.contains(card) {
                    let code = card_code(card) as u8;
                    assert(all.unref().to_set().contains(code));
                    let k = choose|k: int| 0 <= k < all.len() && all.unref()[k] == code;
                    assert(out@[k] == card);
                }
            }
            assert(out@.to_set() =~= self@);
        }
        out
    }

    /// The deck as it is shown: its cards, each once, in no particular
    /// order.
    pub fn to_string(&self) -> (text: String)
        requires
            self.well_formed(),
        ensures
            exists|order: Seq<Card>|
                order.no_duplicates() && order.to_set() == self@ && text@ == #[trigger] cards_text(
                    order,
                ),
    {
        let cards: Vec<Card> = self.get_all_cards();
        write_cards(cards.as_slice())
    }

    /// Takes some card out of the deck and hands it over; which one is not
    /// said. An empty deck gives none and stays as it is.
    pub fn deal_card(&mut self) -> (dealt: Option<Card>)
        requires
            old(self).well_formed(),
        ensures
            final(self).well_formed(),
            match dealt {
                Some(card) => old(self)@.contains(card) && final(self)@ == old(self)@.remove(card),
                None => old(self)@ == Set::<Card>::empty() && final(self)@ == old(self)@,
            },
    {
        let ghost all: Seq<&u8> = spec_hash_keys_iter(&self.cards).remaining();
        let mut first: Option<u8> = None;
        for code in it: self.cards.iter()
            invariant_except_break
                first is None,
                it.index() == 0,
            invariant
                it.seq() == all,
            ensures
                match first {
                    Some(c) => all.len() > 0 && *all[0] == c,
                    None => all.len() == 0,
                },
        {
            first = Some(*code);
            break ;
        }
        match first {
            Some(code) => {
                proof {
                    assert(all.unref()[0] == code);
                    assert(all.unref().to_set().contains(code));
                }
                let card: Card = decode(code);
                self.remove(&card);
                Some(card)
            },
            None => {
                proof {
                    assert(all.len() == 0);
                    assert(self.cards@.len() == 0);
                    assert(self@ =~= Set::<Card>::empty());
                }
                None
            },
        }
    }
}

impl Default for Deck {
    /// The full deck of fifty-two cards.
    fn default() -> (deck: Deck)
        ensures
            forall|card: Card| deck@.contains(card),
            deck.well_formed(),
    {
        let mut deck = Deck::new();
        let mut code: u8 = 0;
        while code < 52
            invariant
                code <= 52,
                deck.well_formed(),
                forall|card: Card| deck@.contains(card) <==> card_code(card) < code,
            decreases 52 - code,
        {
            let card: Card = decode(code);
            let ghost before = deck@;
            deck.insert(card);
            proof {
                assert forall|other: Card| deck@.contains(other) <==> card_code(other) < code
                    + 1 by {
                    lemma_card_code(other);
                }
            }
            code += 1;
        }
        proof {
            assert forall|card: Card| deck@.contains(card) by {
                lemma_card_code(card);
            }
        }
        deck
    }
}

} // verus!
