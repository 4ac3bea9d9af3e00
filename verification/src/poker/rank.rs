use vstd::prelude::*;
use std::cmp::Ordering;
use vstd::std_specs::cmp::PartialOrdSpec;
use super::card::Card;
use super::hand::Hand;
use super::rank_set::{
    bit_at, highest, highest_run, keep_top, lemma_drop_lowest, lemma_equal_bits, lemma_keep_top,
    lemma_ones_bounds, lemma_ones_single, lemma_set_bit, ones, straight_rank, ALL_RANKS, WHEEL,
};
use super::suit_sets::{
    hand_rank, lemma_add_card, lemma_exactly_at, lemma_exactly_partition, lemma_five_cards,
    lemma_flush, lemma_kickers_exist, lemma_no_cards, lemma_size_by_counts, suit_sets,
};

verus! {

/// The nine categories of poker hands, the lowest first. The number that a
/// category carries is the strength of the hand among the hands of that
/// category.
#[derive(PartialEq, Eq, Ord, Clone, Copy, Hash, Debug, Structural)]
pub enum Rank {
    /// The lowest category.
    HighCard(u16),
    OnePair(u16),
    TwoPair(u16),
    ThreeOfAKind(u16),
    Straight(u16),
    Flush(u16),
    FullHouse(u16),
    FourOfAKind(u16),
    StraightFlush(u16),
}

impl Rank {
    /// The place of the category among the nine, from 0 for a high card to
    /// 8 for a straight flush.
    pub open spec fn spec_category(&self) -> int {
        match self {
            Rank::HighCard(_) => 0,
            Rank::OnePair(_) => 1,
            Rank::TwoPair(_) => 2,
            Rank::ThreeOfAKind(_) => 3,
            Rank::Straight(_) => 4,
            Rank::Flush(_) => 5,
            Rank::FullHouse(_) => 6,
            Rank::FourOfAKind(_) => 7,
            Rank::StraightFlush(_) => 8,
        }
    }

    /// The tie-break value that the category carries.
    pub open spec fn spec_payload(&self) -> u16 {
        match self {
            Rank::HighCard(p) => *p,
            Rank::OnePair(p) => *p,
            Rank::TwoPair(p) => *p,
            Rank::ThreeOfAKind(p) => *p,
            Rank::Straight(p) => *p,
            Rank::Flush(p) => *p,
            Rank::FullHouse(p) => *p,
            Rank::FourOfAKind(p) => *p,
            Rank::StraightFlush(p) => *p,
        }
    }

    /// The place of a hand among all hands: the category decides, and the
    /// tie-break value decides among hands of one category.
    pub open spec fn strength(&self) -> int {
        self.spec_category() * 0x1_0000 + self.spec_payload()
    }

    /// Whether this hand is weaker than the other.
    pub open spec fn weaker_than(&self, other: &Rank) -> bool {
        self.strength() < other.strength()
    }

    pub fn category(&self) -> (c: u8)
        ensures
            c == self.spec_category(),
    {
        match self {
            Rank::HighCard(_) => 0,
            Rank::OnePair(_) => 1,
            Rank::TwoPair(_) => 2,
            Rank::ThreeOfAKind(_) => 3,
            Rank::Straight(_) => 4,
            Rank::Flush(_) => 5,
            Rank::FullHouse(_) => 6,
            Rank::FourOfAKind(_) => 7,
            Rank::StraightFlush(_) => 8,
        }
    }

    pub fn payload(&self) -> (p: u16)
        ensures
            p == self.spec_payload(),
    {
        match self {
            Rank::HighCard(p) => *p,
            Rank::OnePair(p) => *p,
            Rank::TwoPair(p) => *p,
            Rank::ThreeOfAKind(p) => *p,
            Rank::Straight(p) => *p,
            Rank::Flush(p) => *p,
            Rank::FullHouse(p) => *p,
            Rank::FourOfAKind(p) => *p,
            Rank::StraightFlush(p) => *p,
        }
    }
}

impl PartialOrd for Rank {
    fn partial_cmp(&self, other: &Rank) -> (r: Option<Ordering>) {
        let mine: u8 = self.category();
        let theirs: u8 = other.category();
        if mine < theirs {
            Some(Ordering::Less)
        } else if mine > theirs {
            Some(Ordering::Greater)
        } else if self.payload() < other.payload() {
            Some(Ordering::Less)
        } else if self.payload() > other.payload() {
            Some(Ordering::Greater)
        } else {
            Some(Ordering::Equal)
        }
    }
}

impl vstd::std_specs::cmp::PartialOrdSpecImpl for Rank {
    open spec fn obeys_partial_cmp_spec() -> bool {
        true
    }

    open spec fn partial_cmp_spec(&self, other: &Rank) -> Option<Ordering> {
        if self.strength() < other.strength() {
            Some(Ordering::Less)
        } else if self.strength() > other.strength() {
            Some(Ordering::Greater)
        } else {
            Some(Ordering::Equal)
        }
    }
}

/// The order of hands is a strict total order: of two hands one is weaker,
/// or they are the same hand, and never both; and a hand weaker than a
/// second, which is weaker than a third, is weaker than the third.
pub proof fn lemma_order_is_total(a: Rank, b: Rank, c: Rank)
    ensures
        a.weaker_than(&b) && b.weaker_than(&c) ==> a.weaker_than(&c),
        !(a.weaker_than(&b) && b.weaker_than(&a)),
        !a.weaker_than(&a),
        a.weaker_than(&b) || b.weaker_than(&a) || a == b,
        a.weaker_than(&b) <==> a.partial_cmp_spec(&b) == Some(Ordering::Less),
        a == b <==> a.partial_cmp_spec(&b) == Some(Ordering::Equal),
{
}

/// The category stands above the tie-break value: a hand of a lower
/// category is weaker, whatever the two values are.
pub proof fn lemma_category_dominates(a: Rank, b: Rank)
    requires
        a.spec_category() < b.spec_category(),
    ensures
        a.weaker_than(&b),
{
}

/// Among hands of one category the tie-break value decides.
pub proof fn lemma_payload_breaks_ties(a: Rank, b: Rank)
    requires
        a.spec_category() == b.spec_category(),
    ensures
        a.weaker_than(&b) <==> a.spec_payload() < b.spec_payload(),
{
}

/// The straight in a set of thirteen ranks, if it holds one.
pub fn rank_straight(value_set: u16) -> (straight: Option<u16>)
    requires
        value_set <= ALL_RANKS,
    ensures
        straight == straight_rank(value_set),
{
    let left: u16 = value_set & (value_set << 1) & (value_set << 2) & (value_set << 3) & (value_set
        << 4);
    let idx: u16 = left.leading_zeros() as u16;
    proof {
        vstd::std_specs::bits::axiom_u16_leading_zeros(left);
        let top: u16 = (15 - idx) as u16;
        assert((idx < 16 ==> 4 <= top <= 12 && highest_run(value_set) == (top - 3) as u16) && (left
            == 0 ==> highest_run(value_set) == 0)) by (bit_vector)
            requires
                value_set <= 0x1fff,
                left == value_set & (value_set << 1) & (value_set << 2) & (value_set << 3) & (
                value_set << 4),
                idx <= 16,
                top == (15 - idx) as u16,
                idx < 16 ==> (left >> top) & 1 != 0,
                left >> ((16 - idx) as u16) == 0,
        ;
    }
    if idx < 16 {
        Some(16 - 4 - idx)
    } else if value_set & WHEEL == WHEEL {
        Some(0)
    } else {
        None
    }
}

/// The set that holds only the highest member of a set that is not empty.
pub fn keep_highest(rank: u16) -> (top: u16)
    requires
        rank != 0,
    ensures
        top == highest(rank),
{
    let zeros: u16 = rank.leading_zeros() as u16;
    proof {
        vstd::std_specs::bits::axiom_u16_leading_zeros(rank);
        lemma_keep_top(rank, 1);
        lemma_ones_bounds(rank);
        lemma_ones_single(highest(rank));
        let h = highest(rank);
        let at: u16 = (15 - zeros) as u16;
        assert(h == 1u16 << at) by (bit_vector)
            requires
                zeros < 16,
                at == (15 - zeros) as u16,
                (rank >> at) & 1 != 0,
                rank >> ((16 - zeros) as u16) == 0,
                h & rank == h,
                h != 0,
                (rank ^ h) < h,
                h & ((h - 1) as u16) == 0,
        ;
    }
    1 << (16 - zeros - 1)
}

/// The `to_keep` highest members of a set.
pub fn keep_n(rank: u16, to_keep: u16) -> (kept: u16)
    ensures
        kept == keep_top(rank, to_keep as nat),
{
    let mut result: u16 = rank;
    while result.count_ones() as u16 > to_keep
        invariant
            keep_top(result, to_keep as nat) == keep_top(rank, to_keep as nat),
        decreases result,
    {
        proof {
            lemma_ones_bounds(result);
            lemma_drop_lowest(result);
        }
        result &= result - 1;
    }
    proof {
        lemma_ones_bounds(result);
    }
    result
}

/// The first suit, in the order of the four sets, that holds five ranks or
/// more.
pub fn find_flush(suit_value_sets: &[u16]) -> (found: Option<usize>)
    ensures
        match found {
            Some(i) => i < suit_value_sets@.len() && ones(suit_value_sets@[i as int]) >= 5
                && forall|j: int| 0 <= j < i ==> ones(#[trigger] suit_value_sets@[j]) < 5,
            None => forall|j: int|
                0 <= j < suit_value_sets@.len() ==> ones(#[trigger] suit_value_sets@[j]) < 5,
        },
{
    let mut i: usize = 0;
    while i < suit_value_sets.len()
        invariant
            i <= suit_value_sets@.len(),
            forall|j: int| 0 <= j < i ==> ones(#[trigger] suit_value_sets@[j]) < 5,
        decreases suit_value_sets@.len() - i,
    {
        if suit_value_sets[i].count_ones() >= 5 {
            return Some(i);
        }
        i += 1;
    }
    None
}

/// Whether the hand at a position is as strong as any of the list.
pub open spec fn is_winner(ranks: Seq<Rank>, i: int) -> bool {
    &&& 0 <= i < ranks.len()
    &&& forall|j: int| 0 <= j < ranks.len() ==> #[trigger] ranks[j].strength() <= ranks[i].strength()
}

/// Compares the hands of several players and returns the positions of the
/// winners: of all the hands tied for the strongest, in rising order. An
/// empty list has no winner.
pub fn compare_ranks(ranks: &[Rank]) -> (winners: Vec<usize>)
    ensures
        forall|k: int| 0 <= k < winners@.len() ==> is_winner(ranks@, #[trigger] winners@[k] as int),
        forall|i: int| is_winner(ranks@, i) ==> winners@.contains(i as usize),
        forall|k: int, l: int| 0 <= k < l < winners@.len() ==> winners@[k] < winners@[l],
        ranks@.len() > 0 ==> winners@.len() > 0,
{
    let mut winners: Vec<usize> = Vec::new();
    if ranks.len() == 0 {
        return winners;
    }
    let mut best: usize = 0;
    winners.push(0);
    assert(winners@[0] == 0);
    let mut i: usize = 1;
    while i < ranks.len()
        invariant
            1 <= i <= ranks@.len(),
            best < i,
            winners@.len() > 0,
            forall|j: int| 0 <= j < i ==> #[trigger] ranks@[j].strength() <= ranks@[best as int].strength(),
            forall|k: int|
                0 <= k < winners@.len() ==> (#[trigger] winners@[k]) < i && ranks@[winners@[k] as int].strength()
                    == ranks@[best as int].strength(),
            forall|j: int|
                0 <= j < i && ranks@[j].strength() == ranks@[best as int].strength()
                    ==> winners@.contains(j as usize),
            forall|k: int, l: int| 0 <= k < l < winners@.len() ==> winners@[k] < winners@[l],
        decreases ranks@.len() - i,
    {
        let mine: u8 = ranks[i].category();
        let theirs: u8 = ranks[best].category();
        let stronger: bool = mine > theirs || (mine == theirs && ranks[i].payload()
            > ranks[best].payload());
        let tied: bool = mine == theirs && ranks[i].payload() == ranks[best].payload();
        let ghost before = winners@;
        if stronger {
            best = i;
            winners.clear();
            winners.push(i);
            assert(winners@[0] == i);
            assert forall|j: int|
                0 <= j < i + 1 && ranks@[j].strength() == ranks@[best as int].strength()
                implies winners@.contains(j as usize) by {
                assert(j == i);
            }
        } else if tied {
            winners.push(i);
            assert forall|j: int|
                0 <= j < i + 1 && ranks@[j].strength() == ranks@[best as int].strength()
                implies winners@.contains(j as usize) by {
                if j < i {
                    let k = choose|k: int| 0 <= k < before.len() && before[k] == j as usize;
                    assert(winners@[k] == j as usize);
                } else {
                    assert(winners@[winners@.len() - 1] == i);
                }
            }
        } else {
            assert forall|j: int|
                0 <= j < i + 1 && ranks@[j].strength() == ranks@[best as int].strength()
                implies winners@.contains(j as usize) by {
            }
        }
        i += 1;
    }
    assert forall|i: int| is_winner(ranks@, i) implies winners@.contains(i as usize) by {
        assert(ranks@[best as int].strength() <= ranks@[i].strength());
    }
    winners
}

/// Ranking a hand of cards.
pub trait HandRanker: View<V = Seq<Card>> {
    fn cards(&self) -> (cards: &[Card])
        ensures
            cards@ == self@,
    ;

    /// Compute the sets of ranks for ranking: for each number of cards
    /// from 0 to 4 the ranks held that many times, for each suit the ranks
    /// held in it, and the ranks held at all. No card occurs twice.
    #[verifier::rlimit(50)]
    fn compute_counts(&self) -> (counts: ([u16; 5], [u16; 4], u16))
        requires
            self@.no_duplicates(),
        ensures
            counts.1@ == suit_sets(self@).as_seq(),
            counts.2 == suit_sets(self@).present(),
            forall|k: int| 0 <= k <= 4 ==> counts.0@[k] == #[trigger] suit_sets(self@).exactly(k),
            suit_sets(self@).in_range(),
            suit_sets(self@).size() == self@.len(),
    {
        let mut value_to_count: [u8; 13] = [0, 0, 0, 0, 0, 0, 0, 0, 0, 0, 0, 0, 0];
        let mut suit_value_sets: [u16; 4] = [0, 0, 0, 0];
        let mut value_set: u16 = 0;
        let mut count_to_value: [u16; 5] = [0, 0, 0, 0, 0];
        let cards = self.cards();
        let mut i: usize = 0;
        proof {
            lemma_no_cards(cards@.take(0));
            assert(suit_value_sets@ =~= suit_sets(cards@.take(0)).as_seq());
        }
        while i < cards.len()
            invariant
                i <= cards@.len(),
                cards@ == self@,
                cards@.no_duplicates(),
                suit_value_sets@ == suit_sets(cards@.take(i as int)).as_seq(),
                value_set == suit_sets(cards@.take(i as int)).present(),
                suit_sets(cards@.take(i as int)).in_range(),
                suit_sets(cards@.take(i as int)).size() == i,
                forall|k: u16|
                    k < 13 ==> value_to_count@[k as int] == #[trigger] suit_sets(
                        cards@.take(i as int),
                    ).count_at(k),
            decreases cards@.len() - i,
        {
            let c: Card = cards[i];
            let v: u16 = c.rank.index() as u16;
            let s: u8 = c.suit.index();
            proof {
                let front = cards@.take(i as int);
                assert(cards@.take(i + 1) == front.push(c));
                assert(!front.contains(c)) by {
                    if front.contains(c) {
                        let j = choose|j: int| 0 <= j < front.len() && front[j] == c;
                        assert(cards@[j] == c && cards@[i as int] == c);
                    }
                }
                lemma_add_card(front, c);
                lemma_exactly_at(suit_sets(front), v);
            }
            value_set |= 1 << v;
            value_to_count[v as usize] += 1;
            suit_value_sets[s as usize] |= 1 << v;
            i += 1;
        }
        proof {
            assert(cards@.take(i as int) == self@);
        }
        let ghost sets = suit_sets(self@);
        let mut value: usize = 0;
        proof {
            lemma_no_cards(Seq::<Card>::empty());
        }
        while value < 13
            invariant
                value <= 13,
                sets.in_range(),
                forall|k: u16| k < 13 ==> value_to_count@[k as int] == #[trigger] sets.count_at(k),
                forall|n: int, k: u16|
                    0 <= n <= 4 && k < 16 ==> #[trigger] bit_at(count_to_value@[n], k) == if k
                        < value && sets.count_at(k) == n {
                        1u16
                    } else {
                        0u16
                    },
            decreases 13 - value,
        {
            let count: u8 = value_to_count[value];
            let at: u16 = value as u16;
            proof {
                lemma_exactly_at(sets, at);
                lemma_set_bit(count_to_value@[count as int], at);
            }
            count_to_value[count as usize] |= 1 << at;
            value += 1;
        }
        proof {
            assert forall|n: int| 0 <= n <= 4 implies count_to_value@[n] == #[trigger] sets.exactly(
                n,
            ) by {
                assert forall|k: u16| k < 16 implies #[trigger] bit_at(count_to_value@[n], k)
                    == bit_at(sets.exactly(n), k) by {
                    lemma_exactly_at(sets, k);
                }
                lemma_equal_bits(count_to_value@[n], sets.exactly(n));
            }
        }
        (count_to_value, suit_value_sets, value_set)
    }

    /// Rank the cards to find the best five card hand: five, six or seven
    /// cards, of which none occurs twice.
    #[verifier::rlimit(50)]
    fn rank(&self) -> (rank: Rank)
        requires
            5 <= self@.len() <= 7,
            self@.no_duplicates(),
        ensures
            rank == hand_rank(self@),
    {
        let (count_to_value, suit_value_sets, value_set) = self.compute_counts();
        let ghost sets = suit_sets(self@);
        proof {
            lemma_kickers_exist(sets);
            lemma_flush(sets);
            assert(count_to_value@[2] == sets.exactly(2) && count_to_value@[3] == sets.exactly(3)
                && count_to_value@[4] == sets.exactly(4));
        }
        let flush = find_flush(suit_value_sets.as_slice());
        if let Some(flush_idx) = flush {
            if let Some(rank) = rank_straight(suit_value_sets[flush_idx]) {
                return Rank::StraightFlush(rank);
            } else {
                let rank: u16 = keep_n(suit_value_sets[flush_idx], 5);
                return Rank::Flush(rank);
            }
        }
        if count_to_value[4] != 0 {
            let high: u16 = keep_highest(value_set ^ count_to_value[4]);
            return Rank::FourOfAKind(count_to_value[4] << 13 | high);
        }
        if count_to_value[3] != 0 && count_to_value[3].count_ones() == 2 {
            let set: u16 = keep_highest(count_to_value[3]);
            let pair: u16 = count_to_value[3] ^ set;
            return Rank::FullHouse(set << 13 | pair);
        }
        if count_to_value[3] != 0 && count_to_value[2] != 0 {
            let set: u16 = count_to_value[3];
            let pair: u16 = keep_highest(count_to_value[2]);
            return Rank::FullHouse(set << 13 | pair);
        }
        if let Some(s_rank) = rank_straight(value_set) {
            return Rank::Straight(s_rank);
        }
        if count_to_value[3] != 0 {
            let low: u16 = keep_n(value_set ^ count_to_value[3], 2);
            return Rank::ThreeOfAKind(count_to_value[3] << 13 | low);
        }
        if count_to_value[2].count_ones() >= 2 {
            let pairs: u16 = keep_n(count_to_value[2], 2);
            let low: u16 = keep_highest(value_set ^ pairs);
            return Rank::TwoPair(pairs << 13 | low);
        }
        if count_to_value[2] == 0 {
            return Rank::HighCard(keep_n(value_set, 5));
        }
        let pair: u16 = count_to_value[2];
        let low: u16 = keep_n(value_set ^ count_to_value[2], 3);
        Rank::OnePair(pair << 13 | low)
    }

    /// Rank this hand assuming it has exactly 5 cards, of which none
    /// occurs twice.
    #[verifier::rlimit(50)]
    fn rank_five(&self) -> (rank: Rank)
        requires
            self@.len() == 5,
            self@.no_duplicates(),
        ensures
            rank == hand_rank(self@),
    {
        let (count_to_value, suit_value_sets, value_set) = self.compute_counts();
        let unique_card_count: u32 = value_set.count_ones();
        let ghost sets = suit_sets(self@);
        proof {
            lemma_size_by_counts(sets);
            lemma_exactly_partition(sets);
            lemma_flush(sets);
            lemma_five_cards(sets);
            assert(count_to_value@[2] == sets.exactly(2) && count_to_value@[3] == sets.exactly(3)
                && count_to_value@[4] == sets.exactly(4));
        }
        if unique_card_count == 5 {
            let is_flush: bool = find_flush(suit_value_sets.as_slice()).is_some();
            match (rank_straight(value_set), is_flush) {
                (None, false) => Rank::HighCard(value_set),
                (Some(rank), false) => Rank::Straight(rank),
                (None, true) => Rank::Flush(value_set),
                (Some(rank), true) => Rank::StraightFlush(rank),
            }
        } else if unique_card_count == 4 {
            let major_rank: u16 = count_to_value[2];
            let minor_rank: u16 = value_set ^ major_rank;
            Rank::OnePair(major_rank << 13 | minor_rank)
        } else if unique_card_count == 3 {
            if count_to_value[3] != 0 {
                let major_rank: u16 = count_to_value[3];
                let minor_rank: u16 = value_set ^ major_rank;
                Rank::ThreeOfAKind(major_rank << 13 | minor_rank)
            } else {
                let major_rank: u16 = count_to_value[2];
                let minor_rank: u16 = value_set ^ major_rank;
                Rank::TwoPair(major_rank << 13 | minor_rank)
            }
        } else {
            if count_to_value[3] != 0 {
                let major_rank: u16 = count_to_value[3];
                let minor_rank: u16 = value_set ^ major_rank;
                Rank::FullHouse(major_rank << 13 | minor_rank)
            } else {
                let major_rank: u16 = count_to_value[4];
                let minor_rank: u16 = value_set ^ major_rank;
                Rank::FourOfAKind(major_rank << 13 | minor_rank)
            }
        }
    }
}

/// Implementation for `Hand`
impl HandRanker for Hand {
    fn cards(&self) -> (cards: &[Card]) {
        Hand::cards(self)
    }
}

} // verus!
