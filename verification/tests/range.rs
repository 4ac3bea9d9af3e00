use poker_rs::error::Error;
use poker_rs::holdem::evaluator::range::{
    add_token, calculate_range_combinations, generate_plus_combinations,
    generate_single_combinations, is_range_token, is_space, Combinations,
};
use poker_rs::holdem::hand_evaluator::HandType;
use poker_rs::holdem::range::{calculate_plus_range, calculate_single_range, parse_cards};
use poker_rs::poker::card::Rank;

fn percent(range: &str) -> Result<f32, Error> {
    calculate_range_combinations(range).map(|deals| deals as f32 / 1326.0)
}

#[test]
fn range_test_valid_combinations() {
    let valid_combinations = vec![
        "AKo", "AAs", "23", "TT", "QJo", "QJs", "97o", "86s", "AKo+", "q2+",
    ];

    for combo in valid_combinations {
        assert!(
            is_range_token(combo),
            "Expected {} to be a valid combo",
            combo
        );
    }
}

#[test]
fn range_test_invalid_combinations() {
    let invalid_combinations = vec![
        "AKx", "AAos", "11", "ZZ", "A", "K", "AK+QJ", "AKo++", "AAs--", "-Aks", "AKo-A2o",
    ];

    for combo in invalid_combinations {
        assert!(
            !is_range_token(combo),
            "Expected {} to be an invalid combo",
            combo
        );
    }
}

#[test]
fn parse_cards_str() {
    let tests = [
        ("AA", (Rank::Ace, Rank::Ace, HandType::Paired)),
        ("Q2", (Rank::Queen, Rank::Two, HandType::UnPaired)),
        ("KTo", (Rank::King, Rank::Ten, HandType::Offsuit)),
        ("KTs", (Rank::King, Rank::Ten, HandType::Suited)),
        ("KTxxx", (Rank::King, Rank::Ten, HandType::UnPaired)),
    ];
    for (s, expected) in tests {
        let t = parse_cards(s);
        assert_eq!(t, expected)
    }
}

#[test]
fn range_test_calculate_range_percent() {
    let test_cases = [
        ("KK+", 0.009_f32),
        ("JJ+, AK", 0.0302_f32),
        ("99+, AQ+", 0.0513_f32),
        ("88+, AJo+, ATs+", 0.0709_f32),
        ("77+, ATo+, A8s+, KQ, KQo, KQs", 0.1026_f32),
        ("77+, ATo+, A8s+, KQ", 0.1026_f32),
        ("66+, A8o+, A5s+, KJo+, KTs+, QJs", 0.1523_f32),
        (
            "22+, A2+, K4o+, K2s+, Q6o+, Q3s+, J8o+, J7s+, T9o+, T7s+, 98o+, 97s+, 87o+, 86s+, 75s+, 65s, 54s",
            0.4992_f32,
        ),
        ("22+, 33+", 0.05882_f32),
    ];

    for (input, expected) in test_cases {
        let actual = percent(input).unwrap();
        let diff = (actual - expected).abs();
        assert!(
            diff < 0.0001,
            "Expected {:.5}, but got {:.5}",
            expected,
            actual
        );
    }
}

#[test]
fn range_test_calculate_range_percent_invalid_input() {
    let invalid_inputs = [
        "AKx", "AAos", "11", "ZZ", "A", "K", "AK+QJ", "AKo++", "AAs--", "-Aks",
    ];

    for input in invalid_inputs.iter() {
        let result = percent(input);
        assert!(result.is_err(), "Expected error for input: {}", input);
    }
}

#[test]
fn exact_deal_counts() {
    assert_eq!(Ok(12), calculate_range_combinations("KK+"));
    assert_eq!(Ok(40), calculate_range_combinations("JJ+, AK"));
    assert_eq!(Ok(6), calculate_range_combinations("AA"));
    assert_eq!(Ok(12), calculate_range_combinations("AKo"));
    assert_eq!(Ok(4), calculate_range_combinations("AKs"));
    assert_eq!(Ok(16), calculate_range_combinations("AK"));
    assert_eq!(Ok(36), calculate_range_combinations("AJo+"));
    assert_eq!(Ok(16), calculate_range_combinations("ATs+"));
    assert_eq!(Ok(78), calculate_range_combinations("22+"));
    assert_eq!(Ok(94), calculate_range_combinations("88+, AJo+, ATs+"));
    assert_eq!(Ok(192), calculate_range_combinations("A2+"));
}

#[test]
fn overlapping_tokens_count_once() {
    assert_eq!(
        calculate_range_combinations("22+"),
        calculate_range_combinations("88+,22+")
    );
    assert_eq!(
        calculate_range_combinations("22+"),
        calculate_range_combinations("22+, 22+, 88+, AA")
    );
    assert_eq!(Ok(16), calculate_range_combinations("AK, AKo, AKs"));
    assert_eq!(Ok(16), calculate_range_combinations("AKo, AKs"));
    assert_eq!(Ok(16), calculate_range_combinations("ak, AK"));
}

#[test]
fn order_of_tokens_does_not_matter() {
    let one = calculate_range_combinations("88+, AJo+, ATs+, KQ, 54s");
    let other = calculate_range_combinations("54s, KQ, ATs+, AJo+, 88+");
    assert_eq!(one, other);
    assert_eq!(Ok(114), one);
}

#[test]
fn white_space_around_tokens_is_dropped() {
    assert_eq!(Ok(40), calculate_range_combinations("  JJ+ ,\tAK\n"));
    assert_eq!(Ok(40), calculate_range_combinations("JJ+,AK"));
    assert_eq!(Ok(40), calculate_range_combinations("\u{a0}JJ+\u{2003},\u{3000}AK"));
    assert_eq!(
        Err(Error::UnexpectedCardChar),
        calculate_range_combinations("J J+")
    );
    assert!(is_space(' '));
    assert!(is_space('\u{85}'));
    assert!(!is_space('\u{200b}'));
    assert!(!is_space('a'));
}

#[test]
fn refused_ranges() {
    assert_eq!(Err(Error::UnexpectedCardChar), calculate_range_combinations("AKx"));
    assert_eq!(Err(Error::UnexpectedCardChar), calculate_range_combinations(""));
    assert_eq!(Err(Error::UnexpectedCardChar), calculate_range_combinations("   "));
    assert_eq!(Err(Error::UnexpectedCardChar), calculate_range_combinations("AK,"));
    assert_eq!(Err(Error::UnexpectedCardChar), calculate_range_combinations(",AK"));
    assert_eq!(Err(Error::UnexpectedCardChar), calculate_range_combinations("AK,,QJ"));
    assert_eq!(Err(Error::UnexpectedCardChar), calculate_range_combinations("A\u{212a}"));
    assert_eq!(Err(Error::UnexpectedCardChar), calculate_range_combinations("AK\u{17f}"));
    assert_eq!(Err(Error::UnexpectedCardChar), calculate_range_combinations("AK, 11"));
    assert_eq!(Err(Error::UnexpectedCardChar), calculate_range_combinations("AK+QJ"));
    assert_eq!(Err(Error::UnexpectedCardChar), calculate_range_combinations("AKo++"));
    assert_eq!(
        Err(Error::UnexpectedCardChar),
        calculate_range_combinations("AKx, QA+")
    );
    assert_eq!(
        Err(Error::UnexpectedCardChar),
        calculate_range_combinations("QA+, AKx")
    );
    assert!(!is_range_token("AK\u{17f}"));
    assert!(!is_range_token("A\u{212a}"));
}

#[test]
fn marks_in_either_case() {
    assert_eq!(Ok(12), calculate_range_combinations("AKO"));
    assert_eq!(Ok(4), calculate_range_combinations("AKS"));
    assert_eq!(Ok(12), calculate_range_combinations("ako"));
    assert_eq!(Ok(4), calculate_range_combinations("aks"));
    assert_eq!(Ok(12), calculate_range_combinations("AKo, AKO"));
    assert_eq!(Ok(16), calculate_range_combinations("AKO, AKS"));
    assert_eq!(Ok(36), calculate_range_combinations("AJO+"));
    assert_eq!(Ok(16), calculate_range_combinations("ATS+"));
    assert_eq!(
        (Rank::King, Rank::Ten, HandType::Offsuit),
        parse_cards("KTO")
    );
    assert_eq!(
        (Rank::King, Rank::Ten, HandType::Suited),
        parse_cards("KTS")
    );
    assert_eq!(Ok(6), calculate_range_combinations("AAs"));
    assert_eq!(Ok(6), calculate_range_combinations("AAo+"));
}

#[test]
fn every_token_of_the_grammar_is_taken() {
    // The higher rank is held and the lower steps up to it, whichever of
    // the two is written first.
    assert_eq!(Ok(32), calculate_range_combinations("QA+"));
    assert_eq!(Ok(144), calculate_range_combinations("2Ao+"));
    assert_eq!(Ok(48), calculate_range_combinations("2As+"));
    assert_eq!(Ok(192), calculate_range_combinations("2A+"));
    assert_eq!(Ok(16), calculate_range_combinations("KA+"));
    assert_eq!(Ok(16), calculate_range_combinations("JQ+"));
    assert_eq!(
        calculate_range_combinations("AQ+"),
        calculate_range_combinations("QA+")
    );
    assert_eq!(
        calculate_range_combinations("KJ+"),
        calculate_range_combinations("JK+, KJ+")
    );
    assert_eq!(Ok(16), calculate_range_combinations("KA+, AK"));
    assert_eq!(Ok(148), calculate_range_combinations("AK, 2Ao+"));
    assert_eq!(Ok(32), calculate_range_combinations("KA, AK"));
    let ranks = ['2', '3', '4', '5', '6', '7', '8', '9', 'T', 'J', 'Q', 'K', 'A'];
    for first in ranks.iter() {
        for second in ranks.iter() {
            for mark in ["", "o", "s", "O", "S"].iter() {
                for plus in ["", "+"].iter() {
                    let token = format!("{}{}{}{}", first, second, mark, plus);
                    assert!(is_range_token(&token), "token {:?}", token);
                    assert!(
                        calculate_range_combinations(&token).is_ok(),
                        "token {:?}",
                        token
                    );
                }
            }
        }
    }
}

#[test]
fn token_counts() {
    assert_eq!(36, calculate_plus_range("AJo+"));
    assert_eq!(12, calculate_plus_range("AJs+"));
    assert_eq!(48, calculate_plus_range("AJ+"));
    assert_eq!(42, calculate_plus_range("88+"));
    assert_eq!(6, calculate_plus_range("AA+"));
    assert_eq!(48, calculate_plus_range("JA+"));
    assert_eq!(36, calculate_plus_range("AJO+"));
    assert_eq!(12, calculate_single_range("AJO"));
    assert_eq!(4, calculate_single_range("AJS"));
    assert_eq!(12, calculate_single_range("AJo"));
    assert_eq!(4, calculate_single_range("AJs"));
    assert_eq!(6, calculate_single_range("JJ"));
    assert_eq!(16, calculate_single_range("AJ"));
}

#[test]
fn combinations_are_sets() {
    let mut combinations = Combinations::new();
    assert_eq!(0, combinations.len_of_offsuit());
    assert_eq!(0, combinations.len_of_suited());
    assert_eq!(0, combinations.len_of_paired());
    generate_single_combinations("AK", &mut combinations);
    generate_single_combinations("AKo", &mut combinations);
    assert_eq!(1, combinations.len_of_offsuit());
    assert_eq!(1, combinations.len_of_suited());
    generate_plus_combinations("ATs+", &mut combinations);
    assert_eq!(1, combinations.len_of_offsuit());
    assert_eq!(4, combinations.len_of_suited());
    generate_plus_combinations("TT+", &mut combinations);
    generate_single_combinations("AA", &mut combinations);
    assert_eq!(5, combinations.len_of_paired());
    assert_eq!(Err(Error::UnexpectedCardChar), add_token("AKx", &mut combinations));
    assert_eq!(5, combinations.len_of_paired());
    assert_eq!(1, combinations.len_of_offsuit());
    assert_eq!(4, combinations.len_of_suited());
    assert_eq!(Ok(()), add_token("22+", &mut combinations));
    assert_eq!(13, combinations.len_of_paired());
    assert_eq!(1, combinations.len_of_offsuit());
    assert_eq!(4, combinations.len_of_suited());
    assert_eq!(Ok(()), add_token("2A+", &mut combinations));
    assert_eq!(13, combinations.len_of_paired());
    assert_eq!(12, combinations.len_of_offsuit());
    assert_eq!(12, combinations.len_of_suited());
    generate_plus_combinations("QAo+", &mut combinations);
    assert_eq!(12, combinations.len_of_offsuit());
    generate_plus_combinations("2Ko+", &mut combinations);
    assert_eq!(23, combinations.len_of_offsuit());
}
