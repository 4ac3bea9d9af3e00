//! The rank of seven cards against the ranks of the hands of five cards
//! that can be picked from them.

use vstd::prelude::*;
use super::card::Card;
use super::rank::Rank;
use super::rank_set::{
    highest, highest_run, keep_top, lemma_keep_top, lemma_keep_top_greatest, lemma_ones_bounds,
    lemma_ones_disjoint, lemma_ones_single, lemma_parts, lemma_straight_needs_five,
    lemma_subset, ones, pack, straight_rank, subset, ALL_RANKS,
};
use super::suit_sets::{
    best_rank, hand_rank, lemma_exactly_partition, lemma_five_cards, lemma_flush,
    lemma_hand_sets, lemma_kickers_exist, lemma_select, lemma_size_by_counts, lemma_sub_hand,
    select, suit_sets, SuitSets,
};

verus! {

/// Seven cards and five of them.
pub open spec fn five_of_seven(all: SuitSets, five: SuitSets) -> bool {
    &&& all.in_range()
    &&& all.size() == 7
    &&& five.within(all)
    &&& five.size() == 5
}

/// A part of a hand holds a rank in no more suits than the hand.
proof fn lemma_within(all: SuitSets, five: SuitSets)
    requires
        five.within(all),
        all.in_range(),
    ensures
        five.in_range(),
        subset(five.present(), all.present()),
        subset(five.exactly(4), all.exactly(4)),
        subset(five.exactly(3), all.exactly(3) | all.exactly(4)),
        subset(five.exactly(2), all.exactly(2) | all.exactly(3) | all.exactly(4)),
        subset(five.exactly(2) | five.exactly(3), all.exactly(2) | all.exactly(3) | all.exactly(4)),
        all.exactly(4) == 0 ==> five.exactly(4) == 0 && subset(five.exactly(3), all.exactly(3))
            && subset(five.exactly(2), all.exactly(2) | all.exactly(3)),
        all.exactly(4) == 0 && all.exactly(3) == 0 ==> five.exactly(3) == 0 && subset(
            five.exactly(2),
            all.exactly(2),
        ) && all.present() == all.exactly(1) | all.exactly(2),
        all.exactly(4) == 0 && all.exactly(2) == 0 ==> subset(five.exactly(2), all.exactly(3)),
        subset(five.clubs, all.clubs),
        subset(five.diamonds, all.diamonds),
        subset(five.hearts, all.hearts),
        subset(five.spades, all.spades),
{
    let a = all.clubs;
    let b = all.diamonds;
    let c = all.hearts;
    let d = all.spades;
    let e = five.clubs;
    let f = five.diamonds;
    let g = five.hearts;
    let h = five.spades;
    let big_two = (a & b) | (a & c) | (a & d) | (b & c) | (b & d) | (c & d);
    let big_three = (a & b & c) | (a & b & d) | (a & c & d) | (b & c & d);
    let big_four = a & b & c & d;
    let two = (e & f) | (e & g) | (e & h) | (f & g) | (f & h) | (g & h);
    let three = (e & f & g) | (e & f & h) | (e & g & h) | (f & g & h);
    let four = e & f & g & h;
    let present = a | b | c | d;
    let x1 = present & !big_two;
    let x2 = big_two & !big_three;
    let x3 = big_three & !big_four;
    let y2 = two & !three;
    let y3 = three & !four;
    assert((e <= 0x1fff && f <= 0x1fff && g <= 0x1fff && h <= 0x1fff) && ((e | f | g | h)
        & present == e | f | g | h) && (four & big_four == four) && (y3 & (x3 | big_four) == y3)
        && (y2 & (x2 | x3 | big_four) == y2) && ((y2 | y3) & (x2 | x3 | big_four) == y2 | y3) && (
    big_four == 0 ==> four == 0 && y3 & x3 == y3 && y2 & (x2 | x3) == y2) && (big_four == 0 && x3
        == 0 ==> y3 == 0 && y2 & x2 == y2 && present == x1 | x2) && (big_four == 0 && x2 == 0
        ==> y2 & x3 == y2)) by (bit_vector)
        requires
            e & a == e,
            f & b == f,
            g & c == g,
            h & d == h,
            a <= 0x1fff,
            b <= 0x1fff,
            c <= 0x1fff,
            d <= 0x1fff,
            big_two == (a & b) | (a & c) | (a & d) | (b & c) | (b & d) | (c & d),
            big_three == (a & b & c) | (a & b & d) | (a & c & d) | (b & c & d),
            big_four == a & b & c & d,
            two == (e & f) | (e & g) | (e & h) | (f & g) | (f & h) | (g & h),
            three == (e & f & g) | (e & f & h) | (e & g & h) | (f & g & h),
            four == e & f & g & h,
            present == a | b | c | d,
            x1 == present & !big_two,
            x2 == big_two & !big_three,
            x3 == big_three & !big_four,
            y2 == two & !three,
            y3 == three & !four,
    ;
}

/// A set that holds a straight holds it in every set around it, and a
/// higher one at most.
proof fn lemma_straight_grows(part: u16, whole: u16)
    requires
        subset(part, whole),
    ensures
        straight_rank(part) is Some ==> straight_rank(whole) is Some && straight_rank(
            part,
        ).unwrap() <= straight_rank(whole).unwrap(),
{
    assert(highest_run(part) <= highest_run(whole) && (part & 0x100f == 0x100f ==> whole & 0x100f
        == 0x100f)) by (bit_vector)
        requires
            part & whole == part,
    ;
}

/// How tie-break values compare. Of the group only the three lowest ranks
/// are kept, and they stand above every kicker.
proof fn lemma_pack(major: u16, minor: u16, other_major: u16, other_minor: u16)
    requires
        minor <= ALL_RANKS,
        other_minor <= ALL_RANKS,
    ensures
        major & 7 == other_major & 7 && minor <= other_minor ==> pack(major, minor) <= pack(
            other_major,
            other_minor,
        ),
        major & 7 < other_major & 7 ==> pack(major, minor) < pack(other_major, other_minor),
        major & 7 == 0 ==> pack(major, minor) == minor,
{
    assert((major & 7 == other_major & 7 && minor <= other_minor ==> (major << 13) | minor <= (
    other_major << 13) | other_minor) && (major & 7 < other_major & 7 ==> (major << 13) | minor < (
    other_major << 13) | other_minor) && (major & 7 == 0 ==> (major << 13) | minor == minor))
        by (bit_vector)
        requires
            minor <= 0x1fff,
            other_minor <= 0x1fff,
    ;
}

/// Where the five cards share a suit, it is the suit of the seven that
/// holds five cards or more.
proof fn lemma_flush_grows(all: SuitSets, five: SuitSets)
    requires
        five_of_seven(all, five),
    ensures
        five.flush() != 0 ==> all.flush() != 0 && subset(five.flush(), all.flush()),
{
    lemma_within(all, five);
    lemma_flush(all);
    lemma_flush(five);
    lemma_subset(five.clubs, all.clubs);
    lemma_subset(five.diamonds, all.diamonds);
    lemma_subset(five.hearts, all.hearts);
    lemma_subset(five.spades, all.spades);
    lemma_ones_bounds(0);
}

/// What seven cards can hold.
proof fn lemma_seven(all: SuitSets)
    requires
        all.in_range(),
        all.size() == 7,
    ensures
        ones(all.exactly(4)) <= 1,
        ones(all.exactly(3)) <= 2,
        ones(all.exactly(2)) <= 3,
        all.present() <= ALL_RANKS,
        all.exactly(4) != 0 ==> all.flush() == 0,
        ones(all.present()) <= 4 ==> all.flush() == 0,
        all.exactly(4) != 0 <==> ones(all.exactly(4)) >= 1,
        all.exactly(3) != 0 <==> ones(all.exactly(3)) >= 1,
        all.exactly(2) != 0 <==> ones(all.exactly(2)) >= 1,
        all.size() == ones(all.exactly(1)) + 2 * ones(all.exactly(2)) + 3 * ones(all.exactly(3))
            + 4 * ones(all.exactly(4)),
        ones(all.present()) == ones(all.exactly(1)) + ones(all.exactly(2)) + ones(all.exactly(3))
            + ones(all.exactly(4)),
{
    let four = all.exactly(4);
    lemma_size_by_counts(all);
    lemma_exactly_partition(all);
    lemma_flush(all);
    lemma_ones_bounds(all.exactly(2));
    lemma_ones_bounds(all.exactly(3));
    lemma_ones_bounds(four);
    lemma_subset(all.clubs, all.present());
    lemma_subset(all.diamonds, all.present());
    lemma_subset(all.hearts, all.present());
    lemma_subset(all.spades, all.present());
    if four != 0 {
        lemma_ones_bounds(all.clubs);
        lemma_ones_bounds(all.diamonds);
        lemma_ones_bounds(all.hearts);
        lemma_ones_bounds(all.spades);
    }
}

/// The kickers of the five are among what the seven hold beside the same
/// group, so the best kickers of the seven are no lower.
proof fn lemma_kickers(whole: u16, part: u16, group: u16, n: nat)
    requires
        subset(part, whole),
        subset(group, part),
        whole <= ALL_RANKS,
        ones(part ^ group) <= n,
    ensures
        part ^ group <= keep_top(whole ^ group, n),
        part ^ group <= ALL_RANKS,
        keep_top(whole ^ group, n) <= ALL_RANKS,
        pack(group, part ^ group) <= pack(group, keep_top(whole ^ group, n)),
{
    lemma_parts(part, whole, group);
    lemma_keep_top_greatest(whole ^ group, n, part ^ group);
    lemma_keep_top(whole ^ group, n);
    lemma_parts(group, part, whole);
    lemma_subset(group, whole);
    lemma_parts(keep_top(whole ^ group, n), whole ^ group, whole);
    lemma_parts(keep_top(whole ^ group, n), whole, 0);
    lemma_parts(part ^ group, whole ^ group, whole);
    lemma_parts(part ^ group, whole, 0);
    lemma_pack(group, part ^ group, group, keep_top(whole ^ group, n));
}

/// Five cards of one suit are no better than the seven.
#[verifier::rlimit(50)]
proof fn lemma_flush_case(all: SuitSets, five: SuitSets)
    requires
        five_of_seven(all, five),
        five.flush() != 0,
    ensures
        best_rank(five).strength() <= best_rank(all).strength(),
{
    lemma_within(all, five);
    lemma_five_cards(five);
    lemma_flush_grows(all, five);
    lemma_flush(five);
    let part = five.flush();
    let whole = all.flush();
    lemma_subset(part, five.present());
    assert(part == five.present());
    lemma_straight_grows(part, whole);
    lemma_keep_top_greatest(whole, 5, part);
    assert(best_rank(five) == match straight_rank(part) {
        Some(k) => Rank::StraightFlush(k),
        None => Rank::Flush(part),
    });
    assert(best_rank(all) == match straight_rank(whole) {
        Some(k) => Rank::StraightFlush(k),
        None => Rank::Flush(keep_top(whole, 5)),
    });
}

/// Four of a kind among the five is four of a kind among the seven, with
/// a kicker that is no lower.
proof fn lemma_four_case(all: SuitSets, five: SuitSets)
    requires
        five_of_seven(all, five),
        five.exactly(4) != 0,
    ensures
        best_rank(five).strength() <= best_rank(all).strength(),
{
    lemma_within(all, five);
    lemma_five_cards(five);
    lemma_seven(all);
    lemma_size_by_counts(five);
    lemma_exactly_partition(five);
    let four = five.exactly(4);
    let big_four = all.exactly(4);
    lemma_ones_bounds(four);
    lemma_ones_bounds(five.exactly(3));
    lemma_ones_bounds(five.present());
    lemma_subset(four, big_four);
    assert(four == big_four);
    assert(five.exactly(3) == 0);
    lemma_subset(four, five.present());
    lemma_kickers(all.present(), five.present(), four, 1);
    assert(best_rank(five) == Rank::FourOfAKind(pack(four, five.present() ^ four)));
    assert(best_rank(all) == Rank::FourOfAKind(pack(big_four, highest(all.present() ^ big_four))));
}

/// Whether the tie-break value hides the better choice among the groups
/// of seven cards. The value keeps of a group only the Two, the Three and
/// the Four. So with two threes of a kind of which one is a Five or higher,
/// the full house with the lower three can carry the greater value. And
/// with three pairs of which one is a Five or higher, two lower pairs can
/// carry the greater value, unless all three pairs are Fives or higher and
/// the seventh card is above them all.
pub open spec fn packing_hides_choice(all: SuitSets) -> bool {
    let threes = all.exactly(3);
    let twos = all.exactly(2);
    ||| ones(threes) == 2 && highest(threes) >= 8
    ||| ones(twos) == 3 && highest(twos) >= 8 && !(twos & 7 == 0 && all.exactly(1) > highest(
        twos,
    ))
}

/// Two different ranks out of a set of two are its higher and its lower
/// rank, one way or the other.
proof fn lemma_two_of_two(both: u16, one: u16, other: u16)
    requires
        ones(both) == 2,
        ones(one) == 1,
        ones(other) == 1,
        other & one == 0,
        subset(one, both),
        subset(other, both),
    ensures
        ({
            let high = highest(both);
            let low = both ^ high;
            &&& (one == high && other == low) || (other == high && one == low)
            &&& low < high
            &&& high < 8 ==> low & 7 < high & 7
        }),
{
    let high = highest(both);
    lemma_keep_top(both, 1);
    lemma_ones_single(one);
    lemma_ones_single(other);
    lemma_ones_single(high);
    lemma_subset(high, both);
    let low = both ^ high;
    lemma_ones_single(low);
    assert(((one == high && other == low) || (other == high && one == low)) && (high < 8 ==> low
        & 7 < high & 7)) by (bit_vector)
        requires
            low == both ^ high,
            high & both == high,
            low < high,
            one & both == one,
            other & both == other,
            other & one == 0,
            one != 0 && one & ((one - 1) as u16) == 0,
            other != 0 && other & ((other - 1) as u16) == 0,
            high != 0 && high & ((high - 1) as u16) == 0,
            low != 0 && low & ((low - 1) as u16) == 0,
    ;
}

/// A full house among the five is matched among the seven.
#[verifier::rlimit(50)]
proof fn lemma_full_house_case(all: SuitSets, five: SuitSets)
    requires
        five_of_seven(all, five),
        !packing_hides_choice(all),
        ones(five.present()) == 2,
        five.exactly(3) != 0,
    ensures
        best_rank(five).strength() <= best_rank(all).strength(),
{
    lemma_within(all, five);
    lemma_five_cards(five);
    lemma_seven(all);
    lemma_size_by_counts(five);
    lemma_exactly_partition(five);
    lemma_exactly_partition(all);
    let three = five.exactly(3);
    let two = five.exactly(2);
    let big_two = all.exactly(2);
    let big_three = all.exactly(3);
    let big_four = all.exactly(4);
    lemma_ones_bounds(two);
    lemma_ones_bounds(five.exactly(1));
    lemma_ones_bounds(five.exactly(4));
    assert(ones(two) == 1);
    assert(best_rank(five) == Rank::FullHouse(pack(three, two)));
    // The two ranks of the five take five cards of the seven at least.
    lemma_ones_disjoint(two, three);
    lemma_split_three(big_two, big_three, big_four);
    lemma_subset(two | three, big_two | big_three | big_four);
    lemma_subset(three, big_three | big_four);
    assert(ones(all.present()) <= 4);
    lemma_parts(two, five.present(), all.present());
    lemma_parts(two, all.present(), 0);
    if big_four == 0 {
        if ones(big_three) == 2 {
            let high = highest(big_three);
            let low = big_three ^ high;
            lemma_ones_bounds(big_two);
            assert(big_two == 0);
            lemma_two_of_two(big_three, three, two);
            lemma_parts(big_three, all.present(), 0);
            lemma_subset(high, big_three);
            lemma_parts(low, big_three, all.present());
            lemma_parts(low, all.present(), 0);
            lemma_pack(three, two, high, low);
            assert(best_rank(all) == Rank::FullHouse(pack(high, low)));
        } else {
            lemma_subset(three, big_three);
            assert(three == big_three);
            lemma_parts(two, big_two, big_three);
            lemma_parts(two, big_two, 0);
            lemma_keep_top_greatest(big_two, 1, two);
            lemma_keep_top(big_two, 1);
            lemma_parts(highest(big_two), big_two, all.present());
            lemma_parts(highest(big_two), all.present(), 0);
            lemma_pack(three, two, big_three, highest(big_two));
            assert(best_rank(all) == Rank::FullHouse(pack(big_three, highest(big_two))));
        }
    } else {
        assert(best_rank(all) is FourOfAKind);
    }
}

/// The members of three sets that share none add up.
proof fn lemma_split_three(a: u16, b: u16, c: u16)
    requires
        a & b == 0,
        a & c == 0,
        b & c == 0,
    ensures
        ones(a | b | c) == ones(a) + ones(b) + ones(c),
        ones(b | c) == ones(b) + ones(c),
{
    lemma_ones_disjoint(b, c);
    lemma_parts(a, b, c);
    lemma_ones_disjoint(a, b);
    lemma_ones_disjoint(a | b, c);
}

/// A straight among the five is a straight among the seven, no lower,
/// where the seven hold nothing better.
proof fn lemma_straight_case(all: SuitSets, five: SuitSets)
    requires
        five_of_seven(all, five),
        ones(five.present()) == 5,
        five.flush() == 0,
        straight_rank(five.present()) is Some,
    ensures
        best_rank(five).strength() <= best_rank(all).strength(),
{
    lemma_within(all, five);
    lemma_five_cards(five);
    lemma_straight_grows(five.present(), all.present());
    lemma_straight_needs_five(all.present());
    assert(best_rank(five) == Rank::Straight(straight_rank(five.present()).unwrap()));
    assert(best_rank(all).spec_category() >= 4);
}

/// Five cards without a pair, a flush or a straight are no better than
/// the five highest ranks of the seven.
proof fn lemma_high_card_case(all: SuitSets, five: SuitSets)
    requires
        five_of_seven(all, five),
        ones(five.present()) == 5,
        five.flush() == 0,
        straight_rank(five.present()) is None,
    ensures
        best_rank(five).strength() <= best_rank(all).strength(),
{
    lemma_within(all, five);
    lemma_five_cards(five);
    lemma_keep_top_greatest(all.present(), 5, five.present());
    lemma_ones_bounds(five.exactly(2));
    assert(best_rank(five) == Rank::HighCard(five.present()));
    if best_rank(all) is HighCard {
        assert(best_rank(all) == Rank::HighCard(keep_top(all.present(), 5)));
    }
}

/// Three of a kind among the five is matched among the seven.
proof fn lemma_three_case(all: SuitSets, five: SuitSets)
    requires
        five_of_seven(all, five),
        ones(five.present()) == 3,
        five.exactly(3) != 0,
    ensures
        best_rank(five).strength() <= best_rank(all).strength(),
{
    lemma_within(all, five);
    lemma_five_cards(five);
    lemma_seven(all);
    lemma_exactly_partition(five);
    let three = five.exactly(3);
    let big_three = all.exactly(3);
    assert(best_rank(five) == Rank::ThreeOfAKind(pack(three, five.present() ^ three)));
    if best_rank(all).spec_category() <= 3 {
        assert(all.exactly(4) == 0);
        lemma_parts(three, big_three, 0);
        lemma_subset(three, big_three);
        assert(three == big_three);
        lemma_subset(three, five.present());
        lemma_kickers(all.present(), five.present(), three, 2);
        assert(best_rank(all) == Rank::ThreeOfAKind(
            pack(big_three, keep_top(all.present() ^ big_three, 2)),
        ));
    }
}

/// One pair among the five is matched among the seven.
proof fn lemma_pair_case(all: SuitSets, five: SuitSets)
    requires
        five_of_seven(all, five),
        ones(five.present()) == 4,
    ensures
        best_rank(five).strength() <= best_rank(all).strength(),
{
    lemma_within(all, five);
    lemma_five_cards(five);
    lemma_seven(all);
    lemma_exactly_partition(five);
    let two = five.exactly(2);
    let big_two = all.exactly(2);
    lemma_ones_bounds(two);
    assert(best_rank(five) == Rank::OnePair(pack(two, five.present() ^ two)));
    if best_rank(all).spec_category() <= 1 {
        assert(all.exactly(4) == 0);
        assert(all.exactly(3) == 0);
        lemma_parts(two, big_two, 0);
        lemma_subset(two, big_two);
        assert(two == big_two);
        lemma_subset(two, five.present());
        lemma_kickers(all.present(), five.present(), two, 3);
        assert(best_rank(all) == Rank::OnePair(pack(big_two, keep_top(all.present() ^ big_two, 3))));
    }
}

/// What three pairs are where the highest is a Four at most, and what a
/// choice of two of them carries.
proof fn lemma_low_pairs(pairs: u16, choice: u16)
    requires
        ones(pairs) == 3,
        highest(pairs) < 8,
        subset(choice, pairs),
        ones(choice) == 2,
    ensures
        keep_top(pairs, 2) == 6,
        choice == keep_top(pairs, 2) || choice & 7 < keep_top(pairs, 2) & 7,
{
    let high = highest(pairs);
    let top = keep_top(pairs, 2);
    lemma_keep_top(pairs, 1);
    lemma_keep_top(pairs, 2);
    lemma_ones_single(high);
    lemma_subset(top, pairs);
    lemma_ones_single(pairs ^ top);
    let low = pairs ^ top;
    assert(top == 6 && (choice == top || choice & 7 < top & 7)) by (bit_vector)
        requires
            ones(pairs) == 3,
            ones(choice) == 2,
            choice & pairs == choice,
            high < 8,
            high & pairs == high,
            (pairs ^ high) < high,
            top & pairs == top,
            low == pairs ^ top,
            top != 0,
            low < top ^ (top & ((top - 1) as u16)),
            low != 0 && low & ((low - 1) as u16) == 0,
    ;
}

/// With three pairs that are all Fives or higher and a seventh card above
/// them, every kicker is that card at most.
proof fn lemma_high_pairs(pairs: u16, single: u16, kicker: u16, top: u16)
    requires
        ones(single) == 1,
        ones(kicker) == 1,
        single > highest(pairs),
        pairs != 0,
        subset(kicker, single | pairs),
        subset(top, pairs),
        single & pairs == 0,
    ensures
        kicker <= highest((single | pairs) ^ top),
{
    let all = single | pairs;
    let rest = all ^ top;
    lemma_keep_top(pairs, 1);
    lemma_ones_single(single);
    lemma_ones_single(kicker);
    assert(single & rest == single && (kicker == single || kicker & pairs == kicker)) by (bit_vector)
        requires
            single & pairs == 0,
            top & pairs == top,
            rest == (single | pairs) ^ top,
            kicker & (single | pairs) == kicker,
            single != 0 && single & ((single - 1) as u16) == 0,
            kicker != 0 && kicker & ((kicker - 1) as u16) == 0,
    ;
    lemma_keep_top_greatest(rest, 1, single);
    if kicker != single {
        lemma_keep_top_greatest(pairs, 1, kicker);
    }
}

/// Two pairs among the five are matched among the seven.
#[verifier::rlimit(50)]
proof fn lemma_two_pair_case(all: SuitSets, five: SuitSets)
    requires
        five_of_seven(all, five),
        !packing_hides_choice(all),
        ones(five.present()) == 3,
        five.exactly(3) == 0,
    ensures
        best_rank(five).strength() <= best_rank(all).strength(),
{
    lemma_within(all, five);
    lemma_five_cards(five);
    lemma_seven(all);
    lemma_exactly_partition(five);
    lemma_exactly_partition(all);
    let two = five.exactly(2);
    let kicker = five.present() ^ two;
    let big_two = all.exactly(2);
    let top = keep_top(big_two, 2);
    assert(best_rank(five) == Rank::TwoPair(pack(two, kicker)));
    if best_rank(all).spec_category() <= 2 {
        assert(all.exactly(4) == 0);
        assert(all.exactly(3) == 0);
        lemma_subset(two, big_two);
        lemma_subset(two, five.present());
        lemma_keep_top(big_two, 2);
        assert(best_rank(all) == Rank::TwoPair(pack(top, highest(all.present() ^ top))));
        lemma_parts(top, big_two, all.present());
        lemma_parts(kicker, five.present(), all.present());
        lemma_parts(kicker, all.present(), 0);
        lemma_subset(top, all.present());
        lemma_keep_top(all.present() ^ top, 1);
        lemma_parts(highest(all.present() ^ top), all.present() ^ top, all.present());
        lemma_parts(highest(all.present() ^ top), all.present(), 0);
        if ones(big_two) == 2 {
            assert(two == big_two);
            lemma_kickers(all.present(), five.present(), two, 1);
        } else if highest(big_two) < 8 {
            lemma_low_pairs(big_two, two);
            if two == top {
                lemma_kickers(all.present(), five.present(), two, 1);
            } else {
                lemma_pack(two, kicker, top, highest(all.present() ^ top));
            }
        } else {
            let single = all.exactly(1);
            lemma_ones_bounds(single);
            lemma_ones_bounds(big_two);
            assert(ones(single) == 1);
            assert(all.present() == single | big_two);
            lemma_ones_single(kicker);
            lemma_high_pairs(big_two, single, kicker, top);
            assert(two & 7 == 0 && top & 7 == 0) by (bit_vector)
                requires
                    big_two & 7 == 0,
                    two & big_two == two,
                    top & big_two == top,
            ;
            lemma_pack(two, kicker, top, highest(all.present() ^ top));
        }
    }
}

/// No five cards out of seven rank above the seven, unless the tie-break
/// value hides the better choice among the groups of the seven.
pub proof fn lemma_seven_bound_their_fives(all: SuitSets, five: SuitSets)
    requires
        five_of_seven(all, five),
        !packing_hides_choice(all),
    ensures
        best_rank(five).strength() <= best_rank(all).strength(),
{
    lemma_within(all, five);
    lemma_five_cards(five);
    let n = ones(five.present());
    if five.flush() != 0 {
        lemma_flush_case(all, five);
    } else if n == 5 {
        if straight_rank(five.present()) is Some {
            lemma_straight_case(all, five);
        } else {
            lemma_high_card_case(all, five);
        }
    } else if n == 4 {
        lemma_pair_case(all, five);
    } else if n == 3 {
        if five.exactly(3) != 0 {
            lemma_three_case(all, five);
        } else {
            lemma_two_pair_case(all, five);
        }
    } else if five.exactly(3) != 0 {
        lemma_full_house_case(all, five);
    } else {
        lemma_four_case(all, five);
    }
}

/// Of a set of cards, every card of the ranks in `whole` and the first
/// card, in the order of the suits, of each rank in `firsts`.
pub open spec fn pick(all: SuitSets, whole: u16, firsts: u16) -> SuitSets {
    SuitSets {
        clubs: all.clubs & (whole | firsts),
        diamonds: all.diamonds & (whole | (firsts & !all.clubs)),
        hearts: all.hearts & (whole | (firsts & !(all.clubs | all.diamonds))),
        spades: all.spades & (whole | (firsts & !(all.clubs | all.diamonds | all.hearts))),
    }
}

/// Of a set of cards, every card of the ranks in `whole` and the first two
/// cards, in the order of the suits, of each rank in `pairs`.
pub open spec fn pick_two(all: SuitSets, whole: u16, pairs: u16) -> SuitSets {
    SuitSets {
        clubs: all.clubs & (whole | pairs),
        diamonds: all.diamonds & (whole | pairs),
        hearts: all.hearts & (whole | (pairs & !(all.clubs & all.diamonds))),
        spades: all.spades & (whole | (pairs & !((all.clubs & all.diamonds) | (all.clubs
            & all.hearts) | (all.diamonds & all.hearts)))),
    }
}

/// The cards of given ranks in the suit that `flush` picks.
pub open spec fn in_flush_suit(all: SuitSets, ranks: u16) -> SuitSets {
    if ones(all.clubs) >= 5 {
        SuitSets { clubs: ranks, diamonds: 0, hearts: 0, spades: 0 }
    } else if ones(all.diamonds) >= 5 {
        SuitSets { clubs: 0, diamonds: ranks, hearts: 0, spades: 0 }
    } else if ones(all.hearts) >= 5 {
        SuitSets { clubs: 0, diamonds: 0, hearts: ranks, spades: 0 }
    } else {
        SuitSets { clubs: 0, diamonds: 0, hearts: 0, spades: ranks }
    }
}

/// The five ranks of the straight with a given number.
pub open spec fn run(straight: u16) -> u16 {
    if straight == 0 {
        0x100f
    } else {
        0x1fu16 << ((straight - 1) as u16)
    }
}

/// Five cards of a set of cards that make its category and tie-break
/// value.
pub open spec fn best_five(all: SuitSets) -> SuitSets {
    let flush = all.flush();
    let present = all.present();
    let fours = all.exactly(4);
    let threes = all.exactly(3);
    let twos = all.exactly(2);
    if flush != 0 {
        match straight_rank(flush) {
            Some(straight) => in_flush_suit(all, run(straight)),
            None => in_flush_suit(all, keep_top(flush, 5)),
        }
    } else if fours != 0 {
        pick(all, fours, highest(present ^ fours))
    } else if threes != 0 && ones(threes) == 2 {
        pick_two(all, highest(threes), threes ^ highest(threes))
    } else if threes != 0 && twos != 0 {
        pick(all, threes | highest(twos), 0)
    } else if straight_rank(present) is Some {
        pick(all, 0, run(straight_rank(present).unwrap()))
    } else if threes != 0 {
        pick(all, threes, keep_top(present ^ threes, 2))
    } else if ones(twos) >= 2 {
        pick(all, keep_top(twos, 2), highest(present ^ keep_top(twos, 2)))
    } else if twos == 0 {
        pick(all, 0, keep_top(present, 5))
    } else {
        pick(all, twos, keep_top(present ^ twos, 3))
    }
}

/// What `pick` picks, rank by rank.
proof fn lemma_pick(all: SuitSets, four: u16, three: u16, two: u16, firsts: u16)
    requires
        subset(four, all.exactly(4)),
        subset(three, all.exactly(3)),
        subset(two, all.exactly(2)),
        subset(firsts, all.present()),
        (four | three | two) & firsts == 0,
    ensures
        ({
            let five = pick(all, four | three | two, firsts);
            &&& five.within(all)
            &&& five.exactly(4) == four
            &&& five.exactly(3) == three
            &&& five.exactly(2) == two
            &&& five.exactly(1) == firsts
            &&& five.present() == four | three | two | firsts
        }),
{
    let a = all.clubs;
    let b = all.diamonds;
    let c = all.hearts;
    let d = all.spades;
    let whole = four | three | two;
    let e = a & (whole | firsts);
    let f = b & (whole | (firsts & !a));
    let g = c & (whole | (firsts & !(a | b)));
    let h = d & (whole | (firsts & !(a | b | c)));
    let big_two = (a & b) | (a & c) | (a & d) | (b & c) | (b & d) | (c & d);
    let big_three = (a & b & c) | (a & b & d) | (a & c & d) | (b & c & d);
    let big_four = a & b & c & d;
    let in_two = (e & f) | (e & g) | (e & h) | (f & g) | (f & h) | (g & h);
    let in_three = (e & f & g) | (e & f & h) | (e & g & h) | (f & g & h);
    let in_four = e & f & g & h;
    let present = e | f | g | h;
    assert(e & a == e && f & b == f && g & c == g && h & d == h && in_four == four && in_three
        & !in_four == three && in_two & !in_three == two && present & !in_two == firsts && present
        == four | three | two | firsts) by (bit_vector)
        requires
            whole == four | three | two,
            e == a & (whole | firsts),
            f == b & (whole | (firsts & !a)),
            g == c & (whole | (firsts & !(a | b))),
            h == d & (whole | (firsts & !(a | b | c))),
            big_two == (a & b) | (a & c) | (a & d) | (b & c) | (b & d) | (c & d),
            big_three == (a & b & c) | (a & b & d) | (a & c & d) | (b & c & d),
            big_four == a & b & c & d,
            in_two == (e & f) | (e & g) | (e & h) | (f & g) | (f & h) | (g & h),
            in_three == (e & f & g) | (e & f & h) | (e & g & h) | (f & g & h),
            in_four == e & f & g & h,
            present == e | f | g | h,
            four & big_four == four,
            three & (big_three & !big_four) == three,
            two & (big_two & !big_three) == two,
            firsts & (a | b | c | d) == firsts,
            (four | three | two) & firsts == 0,
    ;
}

/// What `pick_two` picks of two threes of a kind.
proof fn lemma_pick_two(all: SuitSets, three: u16, pair: u16)
    requires
        subset(three, all.exactly(3)),
        subset(pair, all.exactly(3)),
        pair & three == 0,
    ensures
        ({
            let five = pick_two(all, three, pair);
            &&& five.within(all)
            &&& five.exactly(4) == 0
            &&& five.exactly(3) == three
            &&& five.exactly(2) == pair
            &&& five.exactly(1) == 0
            &&& five.present() == three | pair
        }),
{
    let a = all.clubs;
    let b = all.diamonds;
    let c = all.hearts;
    let d = all.spades;
    let e = a & (three | pair);
    let f = b & (three | pair);
    let g = c & (three | (pair & !(a & b)));
    let h = d & (three | (pair & !((a & b) | (a & c) | (b & c))));
    let big_three = (a & b & c) | (a & b & d) | (a & c & d) | (b & c & d);
    let big_four = a & b & c & d;
    let in_two = (e & f) | (e & g) | (e & h) | (f & g) | (f & h) | (g & h);
    let in_three = (e & f & g) | (e & f & h) | (e & g & h) | (f & g & h);
    let in_four = e & f & g & h;
    let present = e | f | g | h;
    assert(e & a == e && f & b == f && g & c == g && h & d == h && in_four == 0 && in_three
        & !in_four == three && in_two & !in_three == pair && present & !in_two == 0 && present
        == three | pair) by (bit_vector)
        requires
            e == a & (three | pair),
            f == b & (three | pair),
            g == c & (three | (pair & !(a & b))),
            h == d & (three | (pair & !((a & b) | (a & c) | (b & c)))),
            big_three == (a & b & c) | (a & b & d) | (a & c & d) | (b & c & d),
            big_four == a & b & c & d,
            in_two == (e & f) | (e & g) | (e & h) | (f & g) | (f & h) | (g & h),
            in_three == (e & f & g) | (e & f & h) | (e & g & h) | (f & g & h),
            in_four == e & f & g & h,
            present == e | f | g | h,
            three & (big_three & !big_four) == three,
            pair & (big_three & !big_four) == pair,
            pair & three == 0,
    ;
}

/// A straight holds its five ranks, and they are a straight of its number.
proof fn lemma_run(m: u16)
    requires
        m <= ALL_RANKS,
        straight_rank(m) is Some,
    ensures
        subset(run(straight_rank(m).unwrap()), m),
        straight_rank(run(straight_rank(m).unwrap())) == straight_rank(m),
        ones(run(straight_rank(m).unwrap())) == 5,
{
    let high = highest_run(m);
    let r = run(straight_rank(m).unwrap());
    assert(high <= 9 && (high != 0 ==> (0x1fu16 << ((high - 1) as u16)) & m == 0x1fu16 << ((high
        - 1) as u16) && highest_run(0x1fu16 << ((high - 1) as u16)) == high && ones(
        0x1fu16 << ((high - 1) as u16),
    ) == 5) && (high == 0 && m & 0x100f == 0x100f ==> highest_run(0x100f) == 0 && 0x100fu16
        & 0x100f == 0x100f && ones(0x100f) == 5 && 0x100fu16 & m == 0x100f)) by (bit_vector)
        requires
            m <= 0x1fff,
            high == highest_run(m),
    ;
}

/// The five cards of the flush suit make the rank of the seven.
proof fn lemma_best_flush(all: SuitSets)
    requires
        all.in_range(),
        all.size() == 7,
        all.flush() != 0,
    ensures
        five_of_seven(all, best_five(all)),
        best_rank(best_five(all)) == best_rank(all),
{
    let flush = all.flush();
    let five = best_five(all);
    lemma_flush(all);
    lemma_ones_bounds(0);
    lemma_parts(all.clubs, 0, 0);
    lemma_parts(all.diamonds, 0, 0);
    lemma_parts(all.hearts, 0, 0);
    lemma_parts(all.spades, 0, 0);
    lemma_parts(flush, all.present(), 0);
    lemma_exactly_partition(all);
    let ranks = match straight_rank(flush) {
        Some(straight) => run(straight),
        None => keep_top(flush, 5),
    };
    assert(five == in_flush_suit(all, ranks));
    if straight_rank(flush) is Some {
        lemma_run(flush);
    } else {
        lemma_keep_top(flush, 5);
        lemma_keep_top(ranks, 5);
        lemma_straight_grows(ranks, flush);
    }
    assert(ones(ranks) == 5);
    assert(subset(ranks, flush));
    assert(five.flush() == ranks);
    assert(five.size() == 5);
    assert(five.within(all));
}

/// Four of a kind with the highest other card make the rank of the seven.
proof fn lemma_best_four(all: SuitSets)
    requires
        all.in_range(),
        all.size() == 7,
        all.flush() == 0,
        all.exactly(4) != 0,
    ensures
        five_of_seven(all, best_five(all)),
        best_rank(best_five(all)) == best_rank(all),
{
    let present = all.present();
    let four = all.exactly(4);
    let kicker = highest(present ^ four);
    let five = pick(all, four, kicker);
    assert(best_five(all) == five);
    lemma_seven(all);
    lemma_exactly_partition(all);
    lemma_kickers_exist(all);
    lemma_subset(four, present);
    lemma_keep_top(present ^ four, 1);
    let rest = present ^ four;
    assert(four | 0 | 0 == four && four & four == four && 0u16 & all.exactly(3) == 0 && 0u16
        & all.exactly(2) == 0 && kicker & present == kicker && (four | 0 | 0) & kicker == 0 && (
    four | 0 | 0 | kicker) ^ four == kicker) by (bit_vector)
        requires
            rest & present == rest,
            rest & four == 0,
            kicker & rest == kicker,
    ;
    lemma_pick(all, four, 0, 0, kicker);
    lemma_within(all, five);
    lemma_size_by_counts(five);
    lemma_ones_bounds(0);
    lemma_five_cards(five);
    assert(best_rank(five) == Rank::FourOfAKind(pack(four, kicker)));
}

/// Of two threes of a kind, the higher with two cards of the lower make
/// the rank of the seven.
proof fn lemma_best_two_threes(all: SuitSets)
    requires
        all.in_range(),
        all.size() == 7,
        all.flush() == 0,
        all.exactly(4) == 0,
        ones(all.exactly(3)) == 2,
    ensures
        five_of_seven(all, best_five(all)),
        best_rank(best_five(all)) == best_rank(all),
{
    let threes = all.exactly(3);
    let high = highest(threes);
    let low = threes ^ high;
    let five = pick_two(all, high, low);
    lemma_ones_bounds(threes);
    assert(best_five(all) == five);
    lemma_keep_top(threes, 1);
    lemma_subset(high, threes);
    assert(low & high == 0 && (high | low) ^ high == low) by (bit_vector)
        requires
            low == threes ^ high,
            high & threes == high,
    ;
    lemma_pick_two(all, high, low);
    lemma_within(all, five);
    lemma_size_by_counts(five);
    lemma_ones_bounds(0);
    lemma_five_cards(five);
    lemma_keep_top(low, 1);
    assert(best_rank(five) == Rank::FullHouse(pack(high, low)));
}

/// A three of a kind with the highest pair make the rank of the seven.
proof fn lemma_best_full_house(all: SuitSets)
    requires
        all.in_range(),
        all.size() == 7,
        all.flush() == 0,
        all.exactly(4) == 0,
        ones(all.exactly(3)) == 1,
        all.exactly(2) != 0,
    ensures
        five_of_seven(all, best_five(all)),
        best_rank(best_five(all)) == best_rank(all),
{
    let three = all.exactly(3);
    let twos = all.exactly(2);
    let pair = highest(twos);
    let five = pick(all, three | pair, 0);
    lemma_ones_bounds(three);
    lemma_ones_bounds(twos);
    assert(best_five(all) == five);
    lemma_exactly_partition(all);
    lemma_keep_top(twos, 1);
    assert(0u16 | three | pair == three | pair && 0u16 & all.exactly(4) == 0 && three & three
        == three && 0u16 & all.present() == 0 && (0u16 | three | pair) & 0 == 0 && 0u16 | three
        | pair | 0 == three | pair && (three | pair) ^ three == pair && pair & three == 0) by (bit_vector)
        requires
            pair & twos == pair,
            twos & three == 0,
    ;
    lemma_pick(all, 0, three, pair, 0);
    lemma_within(all, five);
    lemma_size_by_counts(five);
    lemma_ones_bounds(0);
    lemma_five_cards(five);
    lemma_keep_top(pair, 1);
    assert(best_rank(five) == Rank::FullHouse(pack(three, pair)));
}

/// One card of each rank of the highest straight makes the rank of the
/// seven.
#[verifier::rlimit(50)]
proof fn lemma_best_straight(all: SuitSets)
    requires
        all.in_range(),
        all.size() == 7,
        all.flush() == 0,
        best_rank(all) is Straight,
    ensures
        five_of_seven(all, best_five(all)),
        best_rank(best_five(all)) == best_rank(all),
{
    let present = all.present();
    let ranks = run(straight_rank(present).unwrap());
    let five = pick(all, 0, ranks);
    assert(best_five(all) == five);
    lemma_exactly_partition(all);
    lemma_run(present);
    lemma_parts(ranks, 0, 0);
    lemma_parts(all.exactly(4), 0, 0);
    lemma_parts(all.exactly(3), 0, 0);
    lemma_parts(all.exactly(2), 0, 0);
    lemma_parts(0, 0, 0);
    lemma_pick(all, 0, 0, 0, ranks);
    lemma_within(all, five);
    lemma_size_by_counts(five);
    lemma_ones_bounds(0);
    lemma_five_cards(five);
    lemma_flush(five);
    lemma_flush(all);
    lemma_subset(five.clubs, all.clubs);
    lemma_subset(five.diamonds, all.diamonds);
    lemma_subset(five.hearts, all.hearts);
    lemma_subset(five.spades, all.spades);
    assert(five.present() == ranks);
    assert(best_rank(five) == Rank::Straight(straight_rank(present).unwrap()));
}

/// The five highest ranks make the rank of seven cards that hold nothing
/// better.
#[verifier::rlimit(50)]
proof fn lemma_best_high_card(all: SuitSets)
    requires
        all.in_range(),
        all.size() == 7,
        all.flush() == 0,
        best_rank(all) is HighCard,
    ensures
        five_of_seven(all, best_five(all)),
        best_rank(best_five(all)) == best_rank(all),
{
    let present = all.present();
    let ranks = keep_top(present, 5);
    let five = pick(all, 0, ranks);
    assert(best_five(all) == five);
    lemma_seven(all);
    lemma_exactly_partition(all);
    lemma_ones_bounds(all.exactly(2));
    lemma_ones_bounds(all.exactly(3));
    lemma_ones_bounds(all.exactly(4));
    assert(all.exactly(2) == 0 && all.exactly(3) == 0 && all.exactly(4) == 0);
    assert(ones(present) == 7);
    lemma_keep_top(present, 5);
    lemma_keep_top(ranks, 5);
    lemma_straight_grows(ranks, present);
    lemma_parts(ranks, 0, 0);
    lemma_parts(all.exactly(4), 0, 0);
    lemma_parts(all.exactly(3), 0, 0);
    lemma_parts(all.exactly(2), 0, 0);
    lemma_parts(0, 0, 0);
    lemma_pick(all, 0, 0, 0, ranks);
    lemma_within(all, five);
    lemma_size_by_counts(five);
    lemma_ones_bounds(0);
    lemma_five_cards(five);
    lemma_flush(five);
    lemma_flush(all);
    lemma_subset(five.clubs, all.clubs);
    lemma_subset(five.diamonds, all.diamonds);
    lemma_subset(five.hearts, all.hearts);
    lemma_subset(five.spades, all.spades);
    assert(five.present() == ranks);
    assert(best_rank(five) == Rank::HighCard(ranks));
}

/// A group of one rank with the highest other ranks, one card of each,
/// makes the rank of seven cards whose best is three of a kind or one
/// pair; and so do the two highest pairs with the highest other rank.
#[verifier::rlimit(50)]
proof fn lemma_best_group(all: SuitSets, group: u16, kickers: u16, n: nat)
    requires
        all.in_range(),
        all.size() == 7,
        all.flush() == 0,
        all.exactly(4) == 0,
        straight_rank(all.present()) is None,
        group != 0,
        (n == 2 && group == all.exactly(3) && ones(group) == 1 && all.exactly(2) == 0) || (n == 1
            && all.exactly(3) == 0 && ones(all.exactly(2)) >= 2 && group == keep_top(
            all.exactly(2),
            2,
        )) || (n == 3 && all.exactly(3) == 0 && group == all.exactly(2) && ones(group) == 1),
        kickers == keep_top(all.present() ^ group, n),
    ensures
        five_of_seven(all, pick(all, group, kickers)),
        n == 2 ==> best_rank(pick(all, group, kickers)) == Rank::ThreeOfAKind(pack(group, kickers)),
        n == 1 ==> best_rank(pick(all, group, kickers)) == Rank::TwoPair(pack(group, kickers)),
        n == 3 ==> best_rank(pick(all, group, kickers)) == Rank::OnePair(pack(group, kickers)),
{
    let present = all.present();
    let five = pick(all, group, kickers);
    let rest = present ^ group;
    let twos = all.exactly(2);
    let threes = all.exactly(3);
    lemma_seven(all);
    lemma_exactly_partition(all);
    lemma_keep_top(twos, 2);
    lemma_keep_top(rest, n);
    lemma_ones_bounds(twos);
    lemma_ones_bounds(threes);
    lemma_ones_bounds(0);
    lemma_parts(group, twos, present);
    assert(subset(group, present));
    lemma_subset(group, present);
    let three = if n == 2 { group } else { 0u16 };
    let two = if n == 2 { 0u16 } else { group };
    assert(0u16 | three | two == group && 0u16 & all.exactly(4) == 0 && 0u16 & threes == 0 && 0u16
        & twos == 0 && kickers & present == kickers && (0u16 | three | two) & kickers == 0 && (0u16
        | three | two | kickers) ^ group == kickers && group & group == group) by (bit_vector)
        requires
            rest & present == rest,
            rest & group == 0,
            kickers & rest == kickers,
            (three == group && two == 0) || (three == 0 && two == group),
    ;
    lemma_pick(all, 0, three, two, kickers);
    lemma_within(all, five);
    lemma_size_by_counts(five);
    lemma_five_cards(five);
    lemma_straight_grows(five.present(), present);
    assert(ones(rest) + ones(group) == ones(present));
    assert(ones(kickers) == n);
    lemma_keep_top(kickers, 1);
}

/// Some five of seven cards rank as the seven do.
pub proof fn lemma_best_five_attains(all: SuitSets)
    requires
        all.in_range(),
        all.size() == 7,
    ensures
        five_of_seven(all, best_five(all)),
        best_rank(best_five(all)) == best_rank(all),
{
    let present = all.present();
    let fours = all.exactly(4);
    let threes = all.exactly(3);
    let twos = all.exactly(2);
    lemma_seven(all);
    lemma_ones_bounds(threes);
    lemma_ones_bounds(twos);
    if all.flush() != 0 {
        lemma_best_flush(all);
    } else if fours != 0 {
        lemma_best_four(all);
    } else if threes != 0 && ones(threes) == 2 {
        lemma_best_two_threes(all);
    } else if threes != 0 && twos != 0 {
        lemma_best_full_house(all);
    } else if straight_rank(present) is Some {
        lemma_best_straight(all);
    } else if threes != 0 {
        lemma_best_group(all, threes, keep_top(present ^ threes, 2), 2);
    } else if ones(twos) >= 2 {
        let pairs = keep_top(twos, 2);
        lemma_keep_top(twos, 2);
        lemma_ones_bounds(pairs);
        lemma_best_group(all, pairs, highest(present ^ pairs), 1);
    } else if twos == 0 {
        lemma_best_high_card(all);
    } else {
        lemma_best_group(all, twos, keep_top(present ^ twos, 3), 3);
    }
}

/// The rank of seven cards is the highest rank of any five of them, unless
/// the tie-break value hides the better choice among the groups of the
/// seven: some five cards attain it, and no five cards pass it.
pub proof fn lemma_seven_rank_as_their_best_five(all: SuitSets)
    requires
        all.in_range(),
        all.size() == 7,
        !packing_hides_choice(all),
    ensures
        five_of_seven(all, best_five(all)),
        best_rank(best_five(all)) == best_rank(all),
        forall|five: SuitSets|
            five_of_seven(all, five) ==> (#[trigger] best_rank(five)).strength() <= best_rank(
                all,
            ).strength(),
{
    lemma_best_five_attains(all);
    assert forall|five: SuitSets| five_of_seven(all, five) implies (#[trigger] best_rank(
        five,
    )).strength() <= best_rank(all).strength() by {
        lemma_seven_bound_their_fives(all, five);
    }
}

/// Whether a list of cards is five different cards of another list.
pub open spec fn five_from(cards: Seq<Card>, five: Seq<Card>) -> bool {
    &&& five.len() == 5
    &&& five.no_duplicates()
    &&& forall|i: int| 0 <= i < five.len() ==> cards.contains(#[trigger] five[i])
}

/// The rank of seven different cards is the highest rank of any five of
/// them, unless the tie-break value hides the better choice among the groups
/// of the seven: five of the cards rank as the seven do, and no five of them
/// rank higher.
pub proof fn lemma_rank_is_best_of_fives(cards: Seq<Card>)
    requires
        cards.len() == 7,
        cards.no_duplicates(),
        !packing_hides_choice(suit_sets(cards)),
    ensures
        five_from(cards, select(cards, best_five(suit_sets(cards)))),
        hand_rank(select(cards, best_five(suit_sets(cards)))) == hand_rank(cards),
        forall|five: Seq<Card>|
            five_from(cards, five) ==> (#[trigger] hand_rank(five)).strength() <= hand_rank(
                cards,
            ).strength(),
{
    let all = suit_sets(cards);
    lemma_hand_sets(cards);
    lemma_best_five_attains(all);
    let best = select(cards, best_five(all));
    lemma_select(cards, best_five(all));
    lemma_hand_sets(best);
    assert forall|five: Seq<Card>| five_from(cards, five) implies (#[trigger] hand_rank(
        five,
    )).strength() <= hand_rank(cards).strength() by {
        lemma_hand_sets(five);
        lemma_sub_hand(cards, five);
        lemma_seven_bound_their_fives(all, suit_sets(five));
    }
}

/// Five cards that rank above the seven where the tie-break value hides
/// the better choice: of two threes of a kind, the lower with two cards of
/// the higher; of three pairs, the two lower with a card of the highest.
pub open spec fn hidden_five(all: SuitSets) -> SuitSets {
    let threes = all.exactly(3);
    let twos = all.exactly(2);
    if ones(threes) == 2 {
        pick_two(all, threes ^ highest(threes), highest(threes))
    } else {
        pick(all, twos ^ highest(twos), highest(twos))
    }
}

/// Where the tie-break value hides the better choice among the groups of
/// seven cards, five of them do carry a greater value than the seven: the
/// rank of the seven is the highest rank of their fives on no other seven
/// cards than those that `lemma_seven_rank_as_their_best_five` takes.
#[verifier::rlimit(50)]
pub proof fn lemma_hidden_choice_ranks_higher(all: SuitSets)
    requires
        all.in_range(),
        all.size() == 7,
        packing_hides_choice(all),
    ensures
        five_of_seven(all, hidden_five(all)),
        best_rank(hidden_five(all)).strength() > best_rank(all).strength(),
{
    let present = all.present();
    let threes = all.exactly(3);
    let twos = all.exactly(2);
    let five = hidden_five(all);
    lemma_seven(all);
    lemma_exactly_partition(all);
    lemma_ones_bounds(threes);
    lemma_ones_bounds(twos);
    lemma_ones_bounds(all.exactly(1));
    lemma_ones_bounds(all.exactly(4));
    lemma_ones_bounds(0);
    if ones(threes) == 2 {
        let high = highest(threes);
        let low = threes ^ high;
        lemma_keep_top(threes, 1);
        lemma_subset(high, threes);
        lemma_ones_single(high);
        lemma_ones_single(low);
        assert(all.exactly(4) == 0 && twos == 0);
        assert(high & low == 0 && (low | high) ^ low == high && low & threes == low && (high << 13)
            | low == low && (low << 13) | high >= high) by (bit_vector)
            requires
                low == threes ^ high,
                high & threes == high,
                high >= 8,
                low < high,
                high != 0 && high & ((high - 1) as u16) == 0,
        ;
        lemma_pick_two(all, low, high);
        lemma_within(all, five);
        lemma_size_by_counts(five);
        lemma_five_cards(five);
        lemma_keep_top(high, 1);
        assert(best_rank(five) == Rank::FullHouse(pack(low, high)));
        assert(best_rank(all) == Rank::FullHouse(pack(high, low)));
    } else {
        let high = highest(twos);
        let lows = twos ^ high;
        let single = all.exactly(1);
        let top = keep_top(twos, 2);
        assert(threes == 0 && all.exactly(4) == 0);
        assert(ones(single) == 1);
        lemma_keep_top(twos, 1);
        lemma_keep_top(twos, 2);
        lemma_subset(high, twos);
        lemma_subset(top, twos);
        lemma_ones_single(high);
        lemma_ones_single(single);
        lemma_ones_single(twos ^ top);
        lemma_keep_top_greatest(twos, 2, lows);
        lemma_straight_needs_five(present);
        lemma_parts(single | twos, 0, 0);
        assert(present == single | twos);
        let low = twos ^ top;
        let kicker = highest(present ^ top);
        lemma_parts(top, twos, present);
        lemma_subset(top, present);
        lemma_keep_top(present ^ top, 1);
        lemma_ones_single(kicker);
        assert(0u16 | 0 | lows == lows && 0u16 & all.exactly(4) == 0 && 0u16 & threes == 0 && lows
            & twos == lows && high & present == high && (0u16 | 0 | lows) & high == 0 && (0u16 | 0
            | lows | high) ^ lows == high && kicker <= 0x1fff && high <= 0x1fff && (kicker
            == single || kicker == low) && (twos & 7 != 0 ==> top & 7 < lows & 7) && (twos & 7
            == 0 ==> top & 7 == 0 && lows & 7 == 0 && low < high) && high != single) by (bit_vector)
            requires
                lows == twos ^ high,
                high & twos == high,
                lows < high,
                high >= 8,
                twos & present == twos,
                present <= 0x1fff,
                top & twos == top,
                low == twos ^ top,
                top != 0,
                low < top ^ (top & ((top - 1) as u16)),
                low != 0 && low & ((low - 1) as u16) == 0,
                high != 0 && high & ((high - 1) as u16) == 0,
                single != 0 && single & ((single - 1) as u16) == 0,
                kicker != 0 && kicker & ((kicker - 1) as u16) == 0,
                kicker & (present ^ top) == kicker,
                present == single | twos,
                single & twos == 0,
        ;
        lemma_pick(all, 0, 0, lows, high);
        lemma_within(all, five);
        lemma_size_by_counts(five);
        lemma_five_cards(five);
        assert(best_rank(five) == Rank::TwoPair(pack(lows, high)));
        assert(best_rank(all) == Rank::TwoPair(pack(top, kicker)));
        lemma_pack(top, kicker, lows, high);
        lemma_pack(lows, high, top, kicker);
    }
}

} // verus!
