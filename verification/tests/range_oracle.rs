use poker_rs::holdem::evaluator::range::{is_range_token, tokens_of};
use regex::Regex;

const ALPHABET: [char; 18] = [
    'A', 'k', 'K', 'Q', 'j', 'T', 't', '2', '9', '1', 'o', 'O', 's', 'S', '+', 'x', ' ', '-',
];

fn words(len: usize) -> Vec<String> {
    let mut all: Vec<String> = vec![String::new()];
    for _ in 0..len {
        let mut longer: Vec<String> = Vec::new();
        for word in all.iter() {
            for c in ALPHABET.iter() {
                let mut next = word.clone();
                next.push(*c);
                longer.push(next);
            }
        }
        all = longer;
    }
    all
}

#[test]
fn token_grammar_is_the_pattern() {
    let pattern = Regex::new(r"(?i)^(?:[AKQJTt2-9]{2}[os]?\+?)$").unwrap();
    for len in 0..5 {
        for word in words(len) {
            assert_eq!(
                pattern.is_match(&word),
                is_range_token(&word),
                "token {:?}",
                word
            );
        }
    }
}

#[test]
fn tokens_are_the_trimmed_pieces() {
    let trim = Regex::new(r"\s*([,])\s*").unwrap();
    let texts = [
        "",
        " ",
        ",",
        " , ",
        "AK",
        " AK ",
        "AK,QJ",
        "AK , QJ",
        "  AK\t,\nQJ ,, 22+  ",
        "A K, Q J",
        ",AK,",
        "\u{a0}AK\u{2003},\u{3000}QJ\u{85}",
        "AK\u{200b},QJ",
        "88+, AJo+, ATs+",
    ];
    for text in texts.iter() {
        let normal = trim.replace_all(text, "$1").trim().to_string();
        let expected: Vec<String> = normal.split(',').map(|piece| piece.to_string()).collect();
        assert_eq!(expected, tokens_of(text), "text {:?}", text);
    }
}
