use poker_rs::poker::card;
use poker_rs::poker::card::Card;
use poker_rs::poker::hand::Hand;
use poker_rs::poker::rank::{
    compare_ranks, find_flush, keep_highest, keep_n, rank_straight, HandRanker, Rank,
};

#[test]
fn test_keep_highest() {
    assert_eq!(0b100, keep_highest(0b111));
}

#[test]
fn test_keep_n() {
    assert_eq!(3, keep_n(0b1111, 3).count_ones());
}

#[test]
fn test_cmp() {
    assert!(Rank::HighCard(0) < Rank::StraightFlush(0));
    assert!(Rank::HighCard(0) < Rank::FourOfAKind(0));
    assert!(Rank::HighCard(0) < Rank::ThreeOfAKind(0));
}

#[test]
fn test_cmp_high() {
    assert!(Rank::HighCard(0) < Rank::HighCard(100));
}

#[test]
fn test_high_card_hand() {
    let hand = Hand::new_from_strs(&["da", "h8", "c9", "ct", "c5"]).unwrap();
    let rank = 1 << card::Rank::Ace as u16
        | 1 << card::Rank::Eight as u16
        | 1 << card::Rank::Nine as u16
        | 1 << card::Rank::Ten as u16
        | 1 << card::Rank::Five as u16;

    assert!(Rank::HighCard(rank) == hand.rank_five());
}

#[test]
fn test_flush() {
    let hand = Hand::new_from_strs(&["da", "d8", "d9", "dt", "d5"]).unwrap();
    println!("hand: {}", hand.to_string());
    let rank = 1 << card::Rank::Ace as u16
        | 1 << card::Rank::Eight as u16
        | 1 << card::Rank::Nine as u16
        | 1 << card::Rank::Ten as u16
        | 1 << card::Rank::Five as u16;

    println!("rank: {}", rank);

    let rank_five = hand.rank_five();
    println!("rank_five: {:?}", rank_five);

    assert!(Rank::Flush(rank) == rank_five);
}

#[test]
fn test_full_house() {
    let hand = Hand::new_from_strs(&["da", "ca", "d9", "c9", "s9"]).unwrap();
    let rank = (1 << (card::Rank::Nine as u16)) << 13 | 1 << (card::Rank::Ace as u16);
    assert!(Rank::FullHouse(rank) == hand.rank_five());
}

#[test]
fn test_two_pair() {
    // Make a two pair hand.
    let hand = Hand::new_from_strs(&["da", "ca", "D9", "c9", "st"]).unwrap();
    let rank = (1 << card::Rank::Ace as u16 | 1 << card::Rank::Nine as u16) << 13
        | 1 << card::Rank::Ten as u16;
    assert!(Rank::TwoPair(rank) == hand.rank_five());
}

#[test]
fn test_one_pair() {
    let hand = Hand::new_from_strs(&["da", "ca", "d9", "c8", "st"]).unwrap();
    let rank = (1 << card::Rank::Ace as u16) << 13
        | 1 << card::Rank::Nine as u16
        | 1 << card::Rank::Eight as u16
        | 1 << card::Rank::Ten as u16;

    assert!(Rank::OnePair(rank) == hand.rank_five());
}

#[test]
fn test_four_of_a_kind() {
    let hand = Hand::new_from_strs(&["da", "ca", "sa", "ha", "st"]).unwrap();
    assert!(
        Rank::FourOfAKind(
            (1 << (card::Rank::Ace as u16) << 13) | 1 << (card::Rank::Ten as u16)
        ) == hand.rank_five()
    );
}

#[test]
fn test_wheel() {
    let hand = Hand::new_from_strs(&["da", "c2", "s3", "h4", "s5"]).unwrap();
    assert!(Rank::Straight(0) == hand.rank_five());
}

#[test]
fn test_straight() {
    let hand = Hand::new_from_strs(&["c2", "s3", "h4", "s5", "d6"]).unwrap();
    assert!(Rank::Straight(1) == hand.rank_five());
}

#[test]
fn test_three_of_a_kind() {
    let hand = Hand::new_from_strs(&["c2", "s2", "h2", "s5", "d6"]).unwrap();
    let rank = (1 << (card::Rank::Two as u16)) << 13
        | 1 << (card::Rank::Five as u16)
        | 1 << (card::Rank::Six as u16);
    assert!(Rank::ThreeOfAKind(rank) == hand.rank_five());
}

#[test]
fn test_rank_seven_straight_flush() {
    let h = Hand::new_from_strs(&["da", "dk", "dq", "dj", "dt", "d9", "d8"]).unwrap();
    assert_eq!(Rank::StraightFlush(9), h.rank());
}

#[test]
fn test_rank_seven_straight_flush_wheel() {
    // Make sure that we pick up the wheel straight flush
    // over different straight.
    let h = Hand::new_from_strs(&["d2", "d3", "d4", "d5", "h6", "c7", "da"]).unwrap();
    assert_eq!(Rank::StraightFlush(0), h.rank());
}

#[test]
fn test_rank_seven_straights() {
    let straights = [
        ["h2", "c3", "s4", "d5", "d6", "s6", "hk"],
        ["c3", "s4", "d5", "d6", "h7", "st", "hk"],
        ["s4", "d5", "d6", "h7", "c8", "st", "hk"],
        ["c5", "c6", "h7", "h8", "d9", "ha", "da"],
        ["c6", "c7", "h8", "h9", "st", "ck", "s6"],
        ["c7", "h8", "h9", "st", "ck", "s6", "hj"],
        ["h8", "h9", "st", "cq", "s6", "hj", "sa"],
        ["h9", "st", "cq", "s6", "hj", "sk", "ck"],
        ["st", "cq", "s6", "hj", "sk", "ca", "h5"],
    ];
    for (idx, s) in straights.iter().enumerate() {
        assert_eq!(
            Rank::Straight(idx as u16 + 1),
            Hand::new_from_strs(s).unwrap().rank()
        );
    }
}

#[test]
fn test_rank_seven_find_best_with_wheel() {
    let h = Hand::new_from_strs(&["d6", "dk", "da", "d2", "d5", "d4", "d3"]).unwrap();
    assert_eq!(Rank::StraightFlush(1), h.rank());
}

#[test]
fn test_rank_seven_four_kind() {
    let h = Hand::new_from_strs(&["s2", "h2", "d2", "c2", "dk", "h9", "s4"]).unwrap();
    let four_rank = (1 << card::Rank::Two as u16) << 13;
    let low_rank = 1 << card::Rank::King as u16;
    assert_eq!(Rank::FourOfAKind(four_rank | low_rank), h.rank());
}

#[test]
fn test_rank_seven_four_plus_set() {
    // Four of a kind plus a set.
    let h = Hand::new_from_strs(&["s2", "h2", "d2", "c2", "d8", "s8", "c8"]).unwrap();
    let four_rank = (1 << card::Rank::Two as u16) << 13;
    let low_rank = 1 << card::Rank::Eight as u16;
    assert_eq!(Rank::FourOfAKind(four_rank | low_rank), h.rank());
}

#[test]
fn test_rank_seven_full_house_two_sets() {
    // We have two sets use the highest set.
    let h = Hand::new_from_strs(&["sa", "h2", "d2", "c2", "d8", "s8", "c8"]).unwrap();
    let set_rank = (1 << card::Rank::Eight as u16) << 13;
    let low_rank = 1 << card::Rank::Two as u16;
    assert_eq!(Rank::FullHouse(set_rank | low_rank), h.rank());
}

#[test]
fn test_rank_seven_full_house_two_pair() {
    // Test to make sure that we pick the best pair.
    let h = Hand::new_from_strs(&["h2", "d2", "c2", "d8", "s8", "dk", "sk"]).unwrap();
    let set_rank = (1 << card::Rank::Two as u16) << 13;
    let low_rank = 1 << card::Rank::King as u16;
    assert_eq!(Rank::FullHouse(set_rank | low_rank), h.rank());
}

#[test]
fn test_two_pair_from_three_pair() {
    let h = Hand::new_from_strs(&["h2", "d2", "d8", "s8", "dk", "sk", "ht"]).unwrap();
    let pair_rank = ((1 << card::Rank::King as u16) | (1 << card::Rank::Eight as u16)) << 13;
    let low_rank = 1 << card::Rank::Ten as u16;
    assert_eq!(Rank::TwoPair(pair_rank | low_rank), h.rank());
}

#[test]
fn test_rank_seven_two_pair() {
    let h = Hand::new_from_strs(&["h2", "d2", "d8", "s8", "dk", "s6", "ht"]).unwrap();
    let pair_rank = ((1 << card::Rank::Two as u16) | (1 << card::Rank::Eight as u16)) << 13;
    let low_rank = 1 << card::Rank::King as u16;
    assert_eq!(Rank::TwoPair(pair_rank | low_rank), h.rank());
}

#[test]
fn test_compare_ranks() {
    let ranks = vec![
        Rank::HighCard(1),
        Rank::OnePair(1 << 13),
        Rank::OnePair(1 << 13),
        Rank::TwoPair(2 << 13),
    ];
    assert_eq!(compare_ranks(&ranks), vec![3]);

    let ranks = vec![
        Rank::HighCard(1),
        Rank::OnePair(1 << 13),
        Rank::TwoPair(2 << 13),
        Rank::TwoPair(2 << 13),
    ];
    assert_eq!(compare_ranks(&ranks), vec![2, 3]);

    let ranks = vec![Rank::HighCard(1)];
    assert_eq!(compare_ranks(&ranks), vec![0]);

    let ranks: Vec<Rank> = vec![];
    assert_eq!(compare_ranks(&ranks), vec![]);
}

#[test]
fn royal_flush_is_the_highest_hand() {
    let hand = Hand::new_from_strs(&["da", "dk", "dq", "dj", "dt"]).unwrap();
    assert_eq!(Rank::StraightFlush(9), hand.rank_five());
    assert_eq!(Rank::StraightFlush(9), hand.rank());
}

#[test]
fn wheel_is_below_the_six_high_straight() {
    let wheel = Hand::new_from_strs(&["d2", "c3", "s4", "h5", "sa"]).unwrap().rank_five();
    let six_high = Hand::new_from_strs(&["d2", "c3", "s4", "h5", "s6"]).unwrap().rank_five();
    assert_eq!(Rank::Straight(0), wheel);
    assert_eq!(Rank::Straight(1), six_high);
    assert!(wheel < six_high);
}

#[test]
fn category_dominates_payload() {
    let all = [
        Rank::HighCard(0xffff),
        Rank::OnePair(0),
        Rank::OnePair(0xffff),
        Rank::TwoPair(0),
        Rank::TwoPair(0xffff),
        Rank::ThreeOfAKind(0),
        Rank::ThreeOfAKind(0xffff),
        Rank::Straight(0),
        Rank::Straight(0xffff),
        Rank::Flush(0),
        Rank::Flush(0xffff),
        Rank::FullHouse(0),
        Rank::FullHouse(0xffff),
        Rank::FourOfAKind(0),
        Rank::FourOfAKind(0xffff),
        Rank::StraightFlush(0),
        Rank::StraightFlush(0xffff),
    ];
    for i in 0..all.len() {
        for j in 0..all.len() {
            assert_eq!(i < j, all[i] < all[j]);
            assert_eq!(i.cmp(&j), all[i].cmp(&all[j]));
            assert_eq!(Some(i.cmp(&j)), all[i].partial_cmp(&all[j]));
        }
    }
    assert_eq!(2, Rank::TwoPair(7).category());
    assert_eq!(7, Rank::TwoPair(7).payload());
}

#[test]
fn set_helpers() {
    assert_eq!(Some(9), rank_straight(0b1_1111_0000_0000));
    assert_eq!(Some(1), rank_straight(0b0_0000_0001_1111));
    assert_eq!(Some(0), rank_straight(0b1_0000_0000_1111));
    assert_eq!(Some(2), rank_straight(0b1_0000_0011_1111));
    assert_eq!(None, rank_straight(0b1_0101_0101_0101));
    assert_eq!(None, rank_straight(0));
    assert_eq!(0b1000_0000_0000_0000, keep_highest(0xffff));
    assert_eq!(1, keep_highest(1));
    assert_eq!(0b1110, keep_n(0b1111, 3));
    assert_eq!(0b1_0000_0000_0100, keep_n(0b1_0000_0000_0111, 2));
    assert_eq!(0b101, keep_n(0b101, 5));
    assert_eq!(0, keep_n(0b101, 0));
    assert_eq!(Some(1), find_flush(&[0b1111, 0b11111, 0b111111, 0]));
    assert_eq!(None, find_flush(&[0b1111, 0b111, 0, 0]));
    assert_eq!(None, find_flush(&[]));
}

#[test]
fn compute_counts_groups_ranks() {
    let h = Hand::new_from_strs(&["h2", "d2", "c2", "d8", "s8", "dk", "sa"]).unwrap();
    let (count_to_value, suit_value_sets, value_set) = h.compute_counts();
    let two = 1u16 << card::Rank::Two as u16;
    let eight = 1u16 << card::Rank::Eight as u16;
    let king = 1u16 << card::Rank::King as u16;
    let ace = 1u16 << card::Rank::Ace as u16;
    assert_eq!(two | eight | king | ace, value_set);
    assert_eq!([two, two | eight | king, two, eight | ace], suit_value_sets);
    assert_eq!(0x1fff & !(two | eight | king | ace), count_to_value[0]);
    assert_eq!(king | ace, count_to_value[1]);
    assert_eq!(eight, count_to_value[2]);
    assert_eq!(two, count_to_value[3]);
    assert_eq!(0, count_to_value[4]);
}

#[test]
fn six_cards_rank_too() {
    let h = Hand::new_from_strs(&["h2", "d2", "d8", "s8", "dk", "ht"]).unwrap();
    let pair_rank = ((1 << card::Rank::Two as u16) | (1 << card::Rank::Eight as u16)) << 13;
    let low_rank = 1 << card::Rank::King as u16;
    assert_eq!(Rank::TwoPair(pair_rank | low_rank), h.rank());
    let h = Hand::new_from_strs(&["h2", "h5", "h8", "hj", "hk", "ha"]).unwrap();
    let top: u16 = 1 << card::Rank::Ace as u16
        | 1 << card::Rank::King as u16
        | 1 << card::Rank::Jack as u16
        | 1 << card::Rank::Eight as u16
        | 1 << card::Rank::Five as u16;
    assert_eq!(Rank::Flush(top), h.rank());
}

fn best_of_fives(cards: &[Card]) -> Rank {
    let mut best: Option<Rank> = None;
    for skip_a in 0..cards.len() {
        for skip_b in (skip_a + 1)..cards.len() {
            let mut five: Vec<Card> = Vec::new();
            for (i, c) in cards.iter().enumerate() {
                if i != skip_a && i != skip_b {
                    five.push(*c);
                }
            }
            let rank = Hand::new_with_cards(five).rank_five();
            best = match best {
                Some(b) if b >= rank => Some(b),
                _ => Some(rank),
            };
        }
    }
    best.unwrap()
}

#[test]
fn rank_of_seven_is_the_best_of_its_fives() {
    let hands = [
        ["da", "dk", "dq", "dj", "dt", "d9", "d8"],
        ["d2", "d3", "d4", "d5", "h6", "c7", "da"],
        ["s2", "h2", "d2", "c2", "dk", "h9", "s4"],
        ["s2", "h2", "d2", "c2", "d8", "s8", "c8"],
        ["h2", "d2", "c2", "d8", "s8", "dk", "sk"],
        ["h2", "d2", "d8", "s8", "dk", "s6", "ht"],
        ["h9", "st", "cq", "s6", "hj", "sk", "ck"],
        ["h2", "h5", "h8", "hj", "hk", "ha", "c3"],
        ["h2", "c5", "h8", "dj", "hk", "sa", "c3"],
        ["h4", "d4", "c4", "d3", "s3", "c3", "sa"],
        ["h4", "d4", "c3", "d3", "s2", "c2", "sa"],
        ["ht", "dt", "c9", "d9", "s7", "c7", "sa"],
    ];
    for codes in hands.iter() {
        let hand = Hand::new_from_strs(codes).unwrap();
        assert_eq!(best_of_fives(hand.cards()), hand.rank());
    }
}

#[test]
fn rank_of_five_is_rank_five() {
    let hands = [
        ["da", "dk", "dq", "dj", "dt"],
        ["da", "c2", "s3", "h4", "s5"],
        ["da", "ca", "sa", "ha", "st"],
        ["da", "ca", "d9", "c9", "s9"],
        ["da", "d8", "d9", "dt", "d5"],
        ["c2", "s2", "h2", "s5", "d6"],
        ["da", "ca", "D9", "c9", "st"],
        ["da", "ca", "d9", "c8", "st"],
        ["da", "h8", "c9", "ct", "c5"],
    ];
    for codes in hands.iter() {
        let hand = Hand::new_from_strs(codes).unwrap();
        assert_eq!(hand.rank_five(), hand.rank());
    }
}

#[test]
fn packed_value_can_hide_the_better_five() {
    // Two threes of a kind, Eights over Twos: the value keeps of the group
    // only the Two, so Twos full of Eights carries the greater value.
    let h = Hand::new_from_strs(&["sa", "h2", "d2", "c2", "d8", "s8", "c8"]).unwrap();
    let lower = Hand::new_from_strs(&["h2", "d2", "c2", "d8", "s8"]).unwrap();
    assert!(lower.rank_five() > h.rank());
    assert_eq!(best_of_fives(h.cards()), lower.rank_five());
    // Three pairs, Kings, Eights and Twos, with a Ten.
    let h = Hand::new_from_strs(&["h2", "d2", "d8", "s8", "dk", "sk", "ht"]).unwrap();
    let lower = Hand::new_from_strs(&["h2", "d2", "d8", "s8", "dk"]).unwrap();
    assert!(lower.rank_five() > h.rank());
    assert_eq!(best_of_fives(h.cards()), lower.rank_five());
}
