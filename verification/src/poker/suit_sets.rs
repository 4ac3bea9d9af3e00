//! A hand as a set of cards, and what its category and tie-break value
//! are.

use vstd::prelude::*;
use super::card;
use super::card::{Card, Suit};
use super::rank::Rank;
use super::rank_set::{
    bit_at, highest, keep_top, lemma_equal_bits, lemma_keep_top, lemma_member_of_part,
    lemma_ones_bounds, lemma_parts, lemma_set_bit, lemma_straight_needs_five,
    lemma_subset, lemma_subset_by_bits, ones, pack, straight_rank, subset, ALL_RANKS,
};

verus! {

/// A set of cards: for each suit, the set of the ranks held in it.
pub struct SuitSets {
    pub clubs: u16,
    pub diamonds: u16,
    pub hearts: u16,
    pub spades: u16,
}

impl SuitSets {
    /// The four sets in the order of the suits.
    pub open spec fn as_seq(self) -> Seq<u16> {
        seq![self.clubs, self.diamonds, self.hearts, self.spades]
    }

    /// Whether each set holds ranks only.
    pub open spec fn in_range(self) -> bool {
        &&& self.clubs <= ALL_RANKS
        &&& self.diamonds <= ALL_RANKS
        &&& self.hearts <= ALL_RANKS
        &&& self.spades <= ALL_RANKS
    }

    /// The number of cards.
    pub open spec fn size(self) -> nat {
        ones(self.clubs) + ones(self.diamonds) + ones(self.hearts) + ones(self.spades)
    }

    /// The number of cards of the rank at a position.
    pub open spec fn count_at(self, k: u16) -> int {
        bit_at(self.clubs, k) + bit_at(self.diamonds, k) + bit_at(self.hearts, k) + bit_at(
            self.spades,
            k,
        )
    }

    /// The ranks held in one suit at least.
    pub open spec fn present(self) -> u16 {
        self.clubs | self.diamonds | self.hearts | self.spades
    }

    /// The ranks held in two suits at least.
    pub open spec fn in_two(self) -> u16 {
        (self.clubs & self.diamonds) | (self.clubs & self.hearts) | (self.clubs & self.spades) | (
        self.diamonds & self.hearts) | (self.diamonds & self.spades) | (self.hearts & self.spades)
    }

    /// The ranks held in three suits at least.
    pub open spec fn in_three(self) -> u16 {
        (self.clubs & self.diamonds & self.hearts) | (self.clubs & self.diamonds & self.spades) | (
        self.clubs & self.hearts & self.spades) | (self.diamonds & self.hearts & self.spades)
    }

    /// The ranks held in all four suits.
    pub open spec fn in_four(self) -> u16 {
        self.clubs & self.diamonds & self.hearts & self.spades
    }

    /// The ranks of which the set holds exactly `k` cards.
    pub open spec fn exactly(self, k: int) -> u16 {
        if k == 0 {
            ALL_RANKS & !self.present()
        } else if k == 1 {
            self.present() & !self.in_two()
        } else if k == 2 {
            self.in_two() & !self.in_three()
        } else if k == 3 {
            self.in_three() & !self.in_four()
        } else if k == 4 {
            self.in_four()
        } else {
            0
        }
    }

    /// The ranks of the first suit, in the order of the suits, that holds
    /// five cards or more; empty where no suit does.
    pub open spec fn flush(self) -> u16 {
        if ones(self.clubs) >= 5 {
            self.clubs
        } else if ones(self.diamonds) >= 5 {
            self.diamonds
        } else if ones(self.hearts) >= 5 {
            self.hearts
        } else if ones(self.spades) >= 5 {
            self.spades
        } else {
            0
        }
    }

    /// Whether every card of `self` is a card of `whole`.
    pub open spec fn within(self, whole: SuitSets) -> bool {
        &&& self.clubs & whole.clubs == self.clubs
        &&& self.diamonds & whole.diamonds == self.diamonds
        &&& self.hearts & whole.hearts == self.hearts
        &&& self.spades & whole.spades == self.spades
    }
}

/// The set that holds one rank.
pub open spec fn rank_bit(rank: card::Rank) -> u16 {
    1u16 << (rank.spec_index() as u16)
}

/// The ranks that a list of cards holds in one suit.
pub open spec fn suit_set(cards: Seq<Card>, suit: Suit) -> u16
    decreases cards.len(),
{
    if cards.len() == 0 {
        0
    } else if cards.last().suit == suit {
        suit_set(cards.drop_last(), suit) | rank_bit(cards.last().rank)
    } else {
        suit_set(cards.drop_last(), suit)
    }
}

/// A list of cards as a set of cards.
pub open spec fn suit_sets(cards: Seq<Card>) -> SuitSets {
    SuitSets {
        clubs: suit_set(cards, Suit::Club),
        diamonds: suit_set(cards, Suit::Diamond),
        hearts: suit_set(cards, Suit::Heart),
        spades: suit_set(cards, Suit::Spade),
    }
}

/// The category and tie-break value of a set of five to seven cards. The
/// first of these that applies decides:
/// a suit with five cards or more, which gives a straight flush where its
/// ranks hold a straight and else a flush of its five highest ranks;
/// four of a kind, with the highest other rank as kicker;
/// two threes of a kind, the higher as the three and the lower as the pair;
/// a three of a kind with a pair, the highest pair;
/// a straight;
/// a three of a kind, with the two highest other ranks;
/// two pairs, the two highest, with the highest other rank;
/// no pair at all, which gives the five highest ranks;
/// one pair, with the three highest other ranks.
pub open spec fn best_rank(sets: SuitSets) -> Rank {
    let flush = sets.flush();
    let present = sets.present();
    let fours = sets.exactly(4);
    let threes = sets.exactly(3);
    let twos = sets.exactly(2);
    if flush != 0 {
        match straight_rank(flush) {
            Some(straight) => Rank::StraightFlush(straight),
            None => Rank::Flush(keep_top(flush, 5)),
        }
    } else if fours != 0 {
        Rank::FourOfAKind(pack(fours, highest(present ^ fours)))
    } else if threes != 0 && ones(threes) == 2 {
        Rank::FullHouse(pack(highest(threes), threes ^ highest(threes)))
    } else if threes != 0 && twos != 0 {
        Rank::FullHouse(pack(threes, highest(twos)))
    } else if straight_rank(present) is Some {
        Rank::Straight(straight_rank(present).unwrap())
    } else if threes != 0 {
        Rank::ThreeOfAKind(pack(threes, keep_top(present ^ threes, 2)))
    } else if ones(twos) >= 2 {
        Rank::TwoPair(pack(keep_top(twos, 2), highest(present ^ keep_top(twos, 2))))
    } else if twos == 0 {
        Rank::HighCard(keep_top(present, 5))
    } else {
        Rank::OnePair(pack(twos, keep_top(present ^ twos, 3)))
    }
}

/// The category and tie-break value of a list of cards.
pub open spec fn hand_rank(cards: Seq<Card>) -> Rank {
    best_rank(suit_sets(cards))
}

/// At each position, the sets of `exactly` hold the rank whose number of
/// cards is theirs, and none of them holds anything that is no rank.
pub proof fn lemma_exactly_at(sets: SuitSets, k: u16)
    requires
        sets.in_range(),
        k < 16,
    ensures
        sets.count_at(k) <= 4,
        k >= 13 ==> sets.count_at(k) == 0,
        forall|n: int|
            0 <= n <= 4 ==> bit_at(#[trigger] sets.exactly(n), k) == if k < 13 && sets.count_at(k)
                == n {
                1u16
            } else {
                0u16
            },
        bit_at(sets.present(), k) == if sets.count_at(k) >= 1 {
            1u16
        } else {
            0u16
        },
{
    let a = sets.clubs;
    let b = sets.diamonds;
    let c = sets.hearts;
    let d = sets.spades;
    let present = a | b | c | d;
    let two = (a & b) | (a & c) | (a & d) | (b & c) | (b & d) | (c & d);
    let three = (a & b & c) | (a & b & d) | (a & c & d) | (b & c & d);
    let four = a & b & c & d;
    assert((((a >> k) & 1) + ((b >> k) & 1) + ((c >> k) & 1) + ((d >> k) & 1)) <= 4 && (k >= 13 ==> (((a >> k) & 1) + ((b >> k) & 1) + ((c >> k) & 1) + ((d >> k) & 1)) == 0) && (((0x1fffu16 & !present) >> k) & 1 == if k < 13 && (((a >> k) & 1) + ((b >> k) & 1) + ((c >> k) & 1) + ((d >> k) & 1))
        == 0 {
        1u16
    } else {
        0u16
    }) && (((present & !two) >> k) & 1 == if (((a >> k) & 1) + ((b >> k) & 1) + ((c >> k) & 1) + ((d >> k) & 1)) == 1 {
        1u16
    } else {
        0u16
    }) && (((two & !three) >> k) & 1 == if (((a >> k) & 1) + ((b >> k) & 1) + ((c >> k) & 1) + ((d >> k) & 1)) == 2 {
        1u16
    } else {
        0u16
    }) && (((three & !four) >> k) & 1 == if (((a >> k) & 1) + ((b >> k) & 1) + ((c >> k) & 1) + ((d >> k) & 1)) == 3 {
        1u16
    } else {
        0u16
    }) && ((four >> k) & 1 == if (((a >> k) & 1) + ((b >> k) & 1) + ((c >> k) & 1) + ((d >> k) & 1)) == 4 {
        1u16
    } else {
        0u16
    }) && ((present >> k) & 1 == if (((a >> k) & 1) + ((b >> k) & 1) + ((c >> k) & 1) + ((d >> k) & 1)) >= 1 {
        1u16
    } else {
        0u16
    })) by (bit_vector)
        requires
            a <= 0x1fff,
            b <= 0x1fff,
            c <= 0x1fff,
            d <= 0x1fff,
            k < 16,
            present == a | b | c | d,
            two == (a & b) | (a & c) | (a & d) | (b & c) | (b & d) | (c & d),
            three == (a & b & c) | (a & b & d) | (a & c & d) | (b & c & d),
            four == a & b & c & d,
    ;
    assert(sets.exactly(0) == 0x1fffu16 & !present);
    assert(sets.exactly(1) == present & !two);
    assert(sets.exactly(2) == two & !three);
    assert(sets.exactly(3) == three & !four);
    assert(sets.exactly(4) == four);
}

/// At one position, the cards of a set add up over the sets of `exactly`.
proof fn lemma_count_at(sets: SuitSets, k: u16)
    requires
        sets.in_range(),
        k < 16,
    ensures
        sets.count_at(k) == bit_at(sets.exactly(1), k) + 2 * bit_at(sets.exactly(2), k) + 3
            * bit_at(sets.exactly(3), k) + 4 * bit_at(sets.exactly(4), k),
        bit_at(sets.present(), k) == bit_at(sets.exactly(1), k) + bit_at(sets.exactly(2), k)
            + bit_at(sets.exactly(3), k) + bit_at(sets.exactly(4), k),
{
    lemma_exactly_at(sets, k);
}

/// The cards of a set add up rank by rank: a rank held `k` times counts
/// `k` cards. Every rank is held from zero to four times.
#[verifier::rlimit(50)]
pub proof fn lemma_size_by_counts(sets: SuitSets)
    requires
        sets.in_range(),
    ensures
        sets.size() == ones(sets.exactly(1)) + 2 * ones(sets.exactly(2)) + 3 * ones(
            sets.exactly(3),
        ) + 4 * ones(sets.exactly(4)),
        ones(sets.present()) == ones(sets.exactly(1)) + ones(sets.exactly(2)) + ones(
            sets.exactly(3),
        ) + ones(sets.exactly(4)),
        sets.present() <= ALL_RANKS,
{
    lemma_count_at(sets, 0);
    lemma_count_at(sets, 1);
    lemma_count_at(sets, 2);
    lemma_count_at(sets, 3);
    lemma_count_at(sets, 4);
    lemma_count_at(sets, 5);
    lemma_count_at(sets, 6);
    lemma_count_at(sets, 7);
    lemma_count_at(sets, 8);
    lemma_count_at(sets, 9);
    lemma_count_at(sets, 10);
    lemma_count_at(sets, 11);
    lemma_count_at(sets, 12);
    lemma_count_at(sets, 13);
    lemma_count_at(sets, 14);
    lemma_count_at(sets, 15);
    lemma_exactly_partition(sets);
}

/// A list of cards holds a rank in a suit exactly when it holds that card,
/// and it holds ranks only.
pub proof fn lemma_suit_set(cards: Seq<Card>, card: Card)
    ensures
        suit_set(cards, card.suit) <= ALL_RANKS,
        suit_set(cards, card.suit) & rank_bit(card.rank) != 0 <==> cards.contains(card),
    decreases cards.len(),
{
    let bit = rank_bit(card.rank);
    let at: u16 = card.rank.spec_index() as u16;
    if cards.len() == 0 {
        lemma_parts(bit, 0, 0);
    } else {
        let front = cards.drop_last();
        let last = cards.last();
        lemma_suit_set(front, card);
        let before = suit_set(front, card.suit);
        let other: u16 = last.rank.spec_index() as u16;
        let added = rank_bit(last.rank);
        assert((before | added <= 0x1fff) && ((before | added) & bit != 0 <==> before & bit != 0
            || at == other)) by (bit_vector)
            requires
                before <= 0x1fff,
                at < 13,
                other < 13,
                bit == 1u16 << at,
                added == 1u16 << other,
        ;
        assert(at == other <==> card.rank == last.rank);
        assert(cards.contains(card) <==> front.contains(card) || last == card) by {
            if front.contains(card) {
                let i = choose|i: int| 0 <= i < front.len() && front[i] == card;
                assert(cards[i] == card);
            }
            if last == card {
                assert(cards[cards.len() - 1] == card);
            }
            if cards.contains(card) {
                let i = choose|i: int| 0 <= i < cards.len() && cards[i] == card;
                if i < cards.len() - 1 {
                    assert(front[i] == card);
                }
            }
        }
    }
}

/// The sets of `exactly` from one to four share no rank, and together they
/// are the ranks present.
pub proof fn lemma_exactly_partition(sets: SuitSets)
    ensures
        ({
            let one = sets.exactly(1);
            let two = sets.exactly(2);
            let three = sets.exactly(3);
            let four = sets.exactly(4);
            let present = sets.present();
            &&& one | two | three | four == present
            &&& one & two == 0 && one & three == 0 && one & four == 0
            &&& two & three == 0 && two & four == 0 && three & four == 0
            &&& subset(one, present) && subset(two, present)
            &&& subset(three, present) && subset(four, present)
            &&& subset(sets.clubs, present) && subset(sets.diamonds, present)
            &&& subset(sets.hearts, present) && subset(sets.spades, present)
            &&& sets.in_range() ==> present <= ALL_RANKS
            &&& four != 0 ==> sets.clubs != 0 && sets.diamonds != 0 && sets.hearts != 0
                && sets.spades != 0
        }),
{
    let a = sets.clubs;
    let b = sets.diamonds;
    let c = sets.hearts;
    let d = sets.spades;
    let present = a | b | c | d;
    let in_two = (a & b) | (a & c) | (a & d) | (b & c) | (b & d) | (c & d);
    let in_three = (a & b & c) | (a & b & d) | (a & c & d) | (b & c & d);
    let in_four = a & b & c & d;
    let one = present & !in_two;
    let two = in_two & !in_three;
    let three = in_three & !in_four;
    let four = in_four;
    assert((one | two | three | four == present) && (one & two == 0 && one & three == 0 && one
        & four == 0) && (two & three == 0 && two & four == 0 && three & four == 0) && (one
        & present == one && two & present == two && three & present == three && four & present
        == four) && (a & present == a && b & present == b && c & present == c && d & present
        == d) && (a <= 0x1fff && b <= 0x1fff && c <= 0x1fff && d <= 0x1fff ==> present <= 0x1fff)
        && (four != 0 ==> a != 0 && b != 0 && c != 0 && d != 0)) by (bit_vector)
        requires
            present == a | b | c | d,
            in_two == (a & b) | (a & c) | (a & d) | (b & c) | (b & d) | (c & d),
            in_three == (a & b & c) | (a & b & d) | (a & c & d) | (b & c & d),
            in_four == a & b & c & d,
            one == present & !in_two,
            two == in_two & !in_three,
            three == in_three & !in_four,
            four == in_four,
    ;
}

/// The suit that `flush` picks holds five cards or more, and where it
/// picks none, no suit does.
pub proof fn lemma_flush(sets: SuitSets)
    ensures
        sets.flush() != 0 ==> ones(sets.flush()) >= 5 && subset(sets.flush(), sets.present()),
        sets.flush() == 0 ==> ones(sets.clubs) < 5 && ones(sets.diamonds) < 5 && ones(sets.hearts)
            < 5 && ones(sets.spades) < 5,
        sets.flush() == sets.clubs || sets.flush() == sets.diamonds || sets.flush() == sets.hearts
            || sets.flush() == sets.spades || sets.flush() == 0,
{
    lemma_ones_bounds(sets.clubs);
    lemma_ones_bounds(sets.diamonds);
    lemma_ones_bounds(sets.hearts);
    lemma_ones_bounds(sets.spades);
    lemma_ones_bounds(0);
    lemma_exactly_partition(sets);
}

/// Five cards or more, and seven at most, leave a kicker beside four of a
/// kind and beside two pairs.
pub proof fn lemma_kickers_exist(sets: SuitSets)
    requires
        sets.in_range(),
        5 <= sets.size() <= 7,
    ensures
        sets.present() <= ALL_RANKS,
        sets.exactly(3) != 0 ==> ones(sets.exactly(3)) >= 1,
        sets.exactly(4) != 0 ==> sets.present() ^ sets.exactly(4) != 0,
        sets.exactly(4) == 0 && sets.exactly(3) == 0 && ones(sets.exactly(2)) >= 2
            ==> sets.present() ^ keep_top(sets.exactly(2), 2) != 0,
{
    let one = sets.exactly(1);
    let two = sets.exactly(2);
    let three = sets.exactly(3);
    let four = sets.exactly(4);
    let present = sets.present();
    let pairs = keep_top(two, 2);
    lemma_size_by_counts(sets);
    lemma_exactly_partition(sets);
    lemma_ones_bounds(one);
    lemma_ones_bounds(two);
    lemma_ones_bounds(three);
    lemma_ones_bounds(four);
    lemma_subset(four, present);
    lemma_keep_top(two, 2);
    lemma_subset(pairs, two);
    lemma_parts(pairs, two, present);
    lemma_subset(pairs, present);
}

/// What five cards can be: by the number of their ranks, which sets of
/// `exactly` are empty and how many ranks the others hold.
#[verifier::rlimit(50)]
pub proof fn lemma_five_cards(sets: SuitSets)
    requires
        sets.in_range(),
        sets.size() == 5,
    ensures
        ({
            let one = sets.exactly(1);
            let two = sets.exactly(2);
            let three = sets.exactly(3);
            let four = sets.exactly(4);
            let present = sets.present();
            let n = ones(present);
            &&& 2 <= n <= 5
            &&& n < 5 ==> sets.flush() == 0 && straight_rank(present) is None
            &&& n == 5 ==> two == 0 && three == 0 && four == 0 && keep_top(present, 5) == present
                && (sets.flush() == 0 || sets.flush() == present)
            &&& n == 4 ==> ones(two) == 1 && three == 0 && four == 0 && keep_top(
                present ^ two,
                3,
            ) == present ^ two
            &&& n == 3 && three != 0 ==> ones(three) == 1 && two == 0 && four == 0 && keep_top(
                present ^ three,
                2,
            ) == present ^ three
            &&& n == 3 && three == 0 ==> ones(two) == 2 && four == 0 && keep_top(two, 2) == two
                && highest(present ^ two) == present ^ two
            &&& n == 2 && three != 0 ==> ones(three) == 1 && two != 0 && four == 0 && highest(two)
                == two && present ^ three == two
            &&& n == 2 && three == 0 ==> four != 0 && highest(present ^ four) == present ^ four
        }),
{
    let one = sets.exactly(1);
    let two = sets.exactly(2);
    let three = sets.exactly(3);
    let four = sets.exactly(4);
    let present = sets.present();
    lemma_size_by_counts(sets);
    lemma_exactly_partition(sets);
    lemma_flush(sets);
    lemma_straight_needs_five(present);
    lemma_ones_bounds(one);
    lemma_ones_bounds(two);
    lemma_ones_bounds(three);
    lemma_ones_bounds(four);
    lemma_ones_bounds(present);
    lemma_subset(two, present);
    lemma_subset(three, present);
    lemma_subset(four, present);
    lemma_keep_top(present, 5);
    lemma_keep_top(present ^ two, 3);
    lemma_keep_top(present ^ three, 2);
    lemma_keep_top(two, 2);
    lemma_keep_top(two, 1);
    lemma_keep_top(present ^ two, 1);
    lemma_keep_top(present ^ four, 1);
    if sets.flush() != 0 {
        lemma_subset(sets.flush(), present);
    }
    if one == 0 && four == 0 {
        lemma_parts(two, 0, 0);
        lemma_parts(two | three, 0, 0);
        lemma_parts(two, three, 0);
    }
}


/// The empty set has no member at any position.
pub proof fn lemma_no_cards(cards: Seq<Card>)
    requires
        cards.len() == 0,
    ensures
        suit_sets(cards).as_seq() == seq![0u16, 0u16, 0u16, 0u16],
        suit_sets(cards).present() == 0,
        suit_sets(cards).in_range(),
        suit_sets(cards).size() == 0,
        forall|k: u16| k < 16 ==> #[trigger] suit_sets(cards).count_at(k) == 0,
        forall|k: u16| k < 16 ==> #[trigger] bit_at(0u16, k) == 0,
{
    lemma_ones_bounds(0);
    lemma_parts(0, 0, 0);
    assert forall|k: u16| k < 16 implies #[trigger] bit_at(0u16, k) == 0 by {
        assert((0u16 >> k) & 1 == 0) by (bit_vector);
    }
    assert forall|k: u16| k < 16 implies #[trigger] suit_sets(cards).count_at(k) == 0 by {
        assert(bit_at(0u16, k) == 0);
    }
}

/// What a new card adds to a list of cards: its rank to the set of its
/// suit, and one card.
#[verifier::rlimit(50)]
pub proof fn lemma_add_card(front: Seq<Card>, c: Card)
    requires
        !front.contains(c),
        suit_sets(front).in_range(),
    ensures
        ({
            let before = suit_sets(front);
            let after = suit_sets(front.push(c));
            let bit = 1u16 << (c.rank.spec_index() as u16);
            &&& after.as_seq() == before.as_seq().update(
                c.suit.spec_index(),
                before.as_seq()[c.suit.spec_index()] | bit,
            )
            &&& after.present() == before.present() | bit
            &&& after.in_range()
            &&& after.size() == before.size() + 1
            &&& before.count_at(c.rank.spec_index() as u16) <= 3
            &&& forall|k: u16|
                k < 16 ==> #[trigger] after.count_at(k) == before.count_at(k) + if k
                    == c.rank.spec_index() {
                    1u16
                } else {
                    0u16
                }
        }),
{
    let before = suit_sets(front);
    let after = suit_sets(front.push(c));
    let at: u16 = c.rank.spec_index() as u16;
    let bit = 1u16 << at;
    let cards = front.push(c);
    assert(cards.drop_last() == front);
    assert(cards.last() == c);
    lemma_suit_set(front, c);
    let a = before.clubs;
    let b = before.diamonds;
    let h = before.hearts;
    let d = before.spades;
    assert((a | bit) | b | h | d == (a | b | h | d) | bit && a | (b | bit) | h | d == (a | b | h
        | d) | bit && a | b | (h | bit) | d == (a | b | h | d) | bit && a | b | h | (d | bit) == (a
        | b | h | d) | bit) by (bit_vector);
    lemma_member_of_part(a, a, at);
    lemma_member_of_part(b, b, at);
    lemma_member_of_part(h, h, at);
    lemma_member_of_part(d, d, at);
    match c.suit {
        Suit::Club => {
            lemma_set_bit(a, at);
            assert(after.clubs == a | bit && after.diamonds == b && after.hearts == h
                && after.spades == d);
            assert(after.as_seq() =~= before.as_seq().update(0, a | bit));
        },
        Suit::Diamond => {
            lemma_set_bit(b, at);
            assert(after.clubs == a && after.diamonds == b | bit && after.hearts == h
                && after.spades == d);
            assert(after.as_seq() =~= before.as_seq().update(1, b | bit));
        },
        Suit::Heart => {
            lemma_set_bit(h, at);
            assert(after.clubs == a && after.diamonds == b && after.hearts == h | bit
                && after.spades == d);
            assert(after.as_seq() =~= before.as_seq().update(2, h | bit));
        },
        Suit::Spade => {
            lemma_set_bit(d, at);
            assert(after.clubs == a && after.diamonds == b && after.hearts == h && after.spades
                == d | bit);
            assert(after.as_seq() =~= before.as_seq().update(3, d | bit));
        },
    }
}

/// The rank at a position of a set of ranks.
pub open spec fn rank_at(k: u16) -> card::Rank {
    card::Rank::spec_from_int(k + 2).unwrap()
}

/// A position of the set of a suit holds a member exactly when it is the
/// position of a rank and the list holds the card of that rank and suit.
pub proof fn lemma_suit_set_at(cards: Seq<Card>, suit: Suit, k: u16)
    requires
        k < 16,
    ensures
        bit_at(suit_set(cards, suit), k) != 0 <==> k < 13 && cards.contains(
            Card { suit, rank: rank_at(k) },
        ),
        suit_set(cards, suit) <= ALL_RANKS,
{
    let m = suit_set(cards, suit);
    if k < 13 {
        let card = Card { suit, rank: rank_at(k) };
        lemma_suit_set(cards, card);
        lemma_set_bit(m, k);
        assert(rank_bit(card.rank) == 1u16 << k);
    } else {
        let card = Card { suit, rank: card::Rank::Two };
        lemma_suit_set(cards, card);
        let sets = SuitSets { clubs: m, diamonds: m, hearts: m, spades: m };
        lemma_exactly_at(sets, k);
    }
}

/// A list of cards without repetition is a set of as many cards.
pub proof fn lemma_hand_sets(cards: Seq<Card>)
    requires
        cards.no_duplicates(),
    ensures
        suit_sets(cards).in_range(),
        suit_sets(cards).size() == cards.len(),
    decreases cards.len(),
{
    if cards.len() == 0 {
        lemma_no_cards(cards);
    } else {
        let front = cards.drop_last();
        let last = cards.last();
        lemma_hand_sets(front);
        assert(!front.contains(last)) by {
            if front.contains(last) {
                let j = choose|j: int| 0 <= j < front.len() && front[j] == last;
                assert(cards[j] == last && cards[cards.len() - 1] == last);
            }
        }
        assert(front.push(last) == cards);
        lemma_add_card(front, last);
    }
}

/// Cards taken from a list make a part of its set of cards.
pub proof fn lemma_sub_hand(cards: Seq<Card>, part: Seq<Card>)
    requires
        forall|i: int| 0 <= i < part.len() ==> cards.contains(#[trigger] part[i]),
    ensures
        suit_sets(part).within(suit_sets(cards)),
{
    assert forall|suit: Suit| subset(#[trigger] suit_set(part, suit), suit_set(cards, suit)) by {
        assert forall|k: u16| k < 16 && #[trigger] bit_at(suit_set(part, suit), k)
            != 0 implies bit_at(suit_set(cards, suit), k) != 0 by {
            lemma_suit_set_at(part, suit, k);
            lemma_suit_set_at(cards, suit, k);
            let card = Card { suit, rank: rank_at(k) };
            let i = choose|i: int| 0 <= i < part.len() && part[i] == card;
            assert(cards.contains(part[i]));
        }
        lemma_subset_by_bits(suit_set(part, suit), suit_set(cards, suit));
    }
    assert(subset(suit_set(part, Suit::Club), suit_set(cards, Suit::Club)));
    assert(subset(suit_set(part, Suit::Diamond), suit_set(cards, Suit::Diamond)));
    assert(subset(suit_set(part, Suit::Heart), suit_set(cards, Suit::Heart)));
    assert(subset(suit_set(part, Suit::Spade), suit_set(cards, Suit::Spade)));
}

/// Whether a set of cards holds a card.
pub open spec fn holds(sets: SuitSets, card: Card) -> bool {
    match card.suit {
        Suit::Club => sets.clubs & rank_bit(card.rank) != 0,
        Suit::Diamond => sets.diamonds & rank_bit(card.rank) != 0,
        Suit::Heart => sets.hearts & rank_bit(card.rank) != 0,
        Suit::Spade => sets.spades & rank_bit(card.rank) != 0,
    }
}

/// The cards of a list that a set of cards holds, in their order.
pub open spec fn select(cards: Seq<Card>, part: SuitSets) -> Seq<Card>
    decreases cards.len(),
{
    if cards.len() == 0 {
        Seq::empty()
    } else if holds(part, cards.last()) {
        select(cards.drop_last(), part).push(cards.last())
    } else {
        select(cards.drop_last(), part)
    }
}

/// What `select` keeps: the cards of the list that the set holds, and none
/// of them twice where the list holds none twice.
proof fn lemma_select_keeps(cards: Seq<Card>, part: SuitSets)
    requires
        cards.no_duplicates(),
    ensures
        forall|card: Card|
            #[trigger] select(cards, part).contains(card) <==> cards.contains(card) && holds(
                part,
                card,
            ),
        select(cards, part).no_duplicates(),
    decreases cards.len(),
{
    let kept = select(cards, part);
    if cards.len() > 0 {
        let front = cards.drop_last();
        let last = cards.last();
        let before = select(front, part);
        lemma_select_keeps(front, part);
        assert(!front.contains(last)) by {
            if front.contains(last) {
                let j = choose|j: int| 0 <= j < front.len() && front[j] == last;
                assert(cards[j] == last && cards[cards.len() - 1] == last);
            }
        }
        assert forall|card: Card| #[trigger] kept.contains(card) <==> cards.contains(card)
            && holds(part, card) by {
            if kept.contains(card) {
                let i = choose|i: int| 0 <= i < kept.len() && kept[i] == card;
                if i < before.len() {
                    assert(before[i] == card);
                    assert(before.contains(card));
                    assert(front.contains(card));
                    let j = choose|j: int| 0 <= j < front.len() && front[j] == card;
                    assert(cards[j] == card);
                } else {
                    assert(cards[cards.len() - 1] == card);
                }
            }
            if cards.contains(card) && holds(part, card) {
                let j = choose|j: int| 0 <= j < cards.len() && cards[j] == card;
                if j < front.len() {
                    assert(front[j] == card);
                    assert(front.contains(card));
                    assert(before.contains(card));
                    let i = choose|i: int| 0 <= i < before.len() && before[i] == card;
                    assert(kept[i] == card);
                } else {
                    assert(kept[kept.len() - 1] == card);
                }
            }
        }
        assert forall|i: int, j: int| 0 <= i < j < kept.len() implies kept[i] != kept[j] by {
            if j == before.len() {
                assert(before[i] == kept[i]);
                assert(before.contains(kept[i]));
                assert(front.contains(kept[i]));
            }
        }
    }
}

/// Keeping the cards of a list that a part of its set of cards holds gives
/// that part.
#[verifier::rlimit(50)]
pub proof fn lemma_select(cards: Seq<Card>, part: SuitSets)
    requires
        cards.no_duplicates(),
        part.within(suit_sets(cards)),
    ensures
        suit_sets(select(cards, part)) == part,
        select(cards, part).no_duplicates(),
        forall|i: int|
            0 <= i < select(cards, part).len() ==> cards.contains(#[trigger] select(cards, part)[i]),
{
    let kept = select(cards, part);
    lemma_select_keeps(cards, part);
    assert forall|i: int| 0 <= i < kept.len() implies cards.contains(#[trigger] kept[i]) by {
        assert(kept.contains(kept[i]));
    }
    assert forall|suit: Suit| #[trigger] suit_set(kept, suit) == (match suit {
        Suit::Club => part.clubs,
        Suit::Diamond => part.diamonds,
        Suit::Heart => part.hearts,
        Suit::Spade => part.spades,
    }) by {
        let mine = suit_set(kept, suit);
        let theirs = match suit {
            Suit::Club => part.clubs,
            Suit::Diamond => part.diamonds,
            Suit::Heart => part.hearts,
            Suit::Spade => part.spades,
        };
        let whole = suit_set(cards, suit);
        assert(subset(theirs, whole));
        assert forall|k: u16| k < 16 implies #[trigger] bit_at(mine, k) == bit_at(theirs, k) by {
            lemma_suit_set_at(kept, suit, k);
            lemma_suit_set_at(cards, suit, k);
            lemma_set_bit(theirs, k);
            lemma_set_bit(mine, k);
            lemma_member_of_part(theirs, whole, k);
            let card = Card { suit, rank: rank_at(k) };
            if k < 13 {
                assert(rank_bit(card.rank) == 1u16 << k);
                assert(holds(part, card) <==> theirs & (1u16 << k) != 0);
            }
        }
        lemma_equal_bits(mine, theirs);
    }
    assert(suit_set(kept, Suit::Club) == part.clubs);
    assert(suit_set(kept, Suit::Diamond) == part.diamonds);
    assert(suit_set(kept, Suit::Heart) == part.hearts);
    assert(suit_set(kept, Suit::Spade) == part.spades);
}

} // verus!
