//! The share of all starting hands that a range stands for.
//!
//! A range is written as tokens between commas, such as `88+, AJo+, ATs+`.
//! A token names two ranks, then `o` for offsuit or `s` for suited, then
//! `+` for every step up from it. Each token stands for combinations of
//! ranks; a combination that several tokens name counts once.

use vstd::prelude::*;
use std::collections::HashSet;
use vstd::std_specs::hash::group_hash_axioms;
use vstd::std_specs::iter::IteratorSpec;
use vstd::std_specs::hash::spec_hash_keys_iter;
use vstd::string::StrSliceExecFns;
use crate::error::Error;
use crate::holdem::hand_evaluator::HandType;
use crate::holdem::range::{
    parse_cards, plus_range_count, single_range_count, spec_parse_cards, starts_with_ranks,
};
use crate::poker::card::Rank;

verus! {

broadcast use group_hash_axioms;

/// The deals of two cards that one offsuit combination stands for.
pub const SPEC_OFF_SUIT_COMBINATIONS: usize = 12;

/// The deals that one suited combination stands for.
pub const SPEC_SUITED_COMBINATIONS: usize = 4;

/// The deals that one pair stands for.
pub const SPEC_PAIRED_COMBINATIONS: usize = 6;

/// All the deals of two cards from fifty-two.
pub const HAND_COMBINATIONS: usize = 1326;

/// The name of a combination of two ranks, given by their ordinals: the
/// first rank stands above the second, so that every pair of ranks has a
/// name of its own. A pair is named by the ordinal of its rank.
pub open spec fn label(first: int, second: int) -> u8 {
    (first * 16 + second) as u8
}

/// The combinations of a range, by class.
pub struct Labels {
    pub offsuit: Set<u8>,
    pub suited: Set<u8>,
    pub paired: Set<u8>,
}

impl Labels {
    /// No combination at all.
    pub open spec fn empty() -> Labels {
        Labels { offsuit: Set::empty(), suited: Set::empty(), paired: Set::empty() }
    }

    /// The combinations of either.
    pub open spec fn union(self, other: Labels) -> Labels {
        Labels {
            offsuit: self.offsuit.union(other.offsuit),
            suited: self.suited.union(other.suited),
            paired: self.paired.union(other.paired),
        }
    }

    /// Whether the two hold the same combinations.
    pub open spec fn same(self, other: Labels) -> bool {
        &&& self.offsuit =~= other.offsuit
        &&& self.suited =~= other.suited
        &&& self.paired =~= other.paired
    }

    /// The deals of two cards that the combinations stand for: twelve for
    /// each offsuit one, four for each suited one, six for each pair.
    pub open spec fn deals(self) -> nat {
        self.offsuit.len() * 12 + self.suited.len() * 4 + self.paired.len() * 6
    }
}

/// The combinations gathered so far, each class without repetition.
pub struct Combinations {
    offsuit: HashSet<u8>,
    suited: HashSet<u8>,
    paired: HashSet<u8>,
}

impl View for Combinations {
    type V = Labels;

    closed spec fn view(&self) -> Labels {
        Labels { offsuit: self.offsuit@, suited: self.suited@, paired: self.paired@ }
    }
}

impl Combinations {
    pub fn new() -> (combinations: Combinations)
        ensures
            combinations@ == Labels::empty(),
    {
        Self { offsuit: HashSet::new(), suited: HashSet::new(), paired: HashSet::new() }
    }

    pub fn len_of_offsuit(&self) -> (n: usize)
        ensures
            n == self@.offsuit.len(),
            self@.offsuit.finite(),
            n <= 256,
    {
        proof {
            lemma_labels_fit(&self.offsuit);
        }
        self.offsuit.len()
    }

    pub fn len_of_suited(&self) -> (n: usize)
        ensures
            n == self@.suited.len(),
            self@.suited.finite(),
            n <= 256,
    {
        proof {
            lemma_labels_fit(&self.suited);
        }
        self.suited.len()
    }

    pub fn len_of_paired(&self) -> (n: usize)
        ensures
            n == self@.paired.len(),
            self@.paired.finite(),
            n <= 256,
    {
        proof {
            lemma_labels_fit(&self.paired);
        }
        self.paired.len()
    }
}

/// A set of names has 256 members at most.
proof fn lemma_labels_fit(set: &HashSet<u8>)
    ensures
        set@.finite(),
        set@.len() <= 256,
{
    let keys = spec_hash_keys_iter(set).remaining().unref();
    vstd::seq_lib::seq_to_set_is_finite(keys);
    assert(keys.to_set() == set@);
    let all = vstd::set_lib::set_int_range(0, 256);
    vstd::set_lib::lemma_int_range(0, 256);
    let f = |k: u8| k as int;
    let image = set@.map(f);
    assert forall|a: u8, b: u8|
        set@.contains(a) && set@.contains(b) && #[trigger] f(a) == #[trigger] f(b) implies a
        == b by {
    }
    vstd::set_lib::lemma_map_size(set@, image, f);
    assert(image.subset_of(all));
    vstd::set_lib::lemma_len_subset(image, all);
}

/// The combinations that a token without the plus modifier names: the one
/// of its two ranks, in the class of the token; both the offsuit and the
/// suited one where the token leaves the suits open.
pub open spec fn single_labels(s: Seq<char>) -> Labels {
    let (rank1, rank2, class) = spec_parse_cards(s);
    let name = label(rank1.spec_as_int(), rank2.spec_as_int());
    match class {
        HandType::Offsuit => Labels { offsuit: set![name], suited: Set::empty(), paired: Set::empty() },
        HandType::Suited => Labels { offsuit: Set::empty(), suited: set![name], paired: Set::empty() },
        HandType::Paired => Labels {
            offsuit: Set::empty(),
            suited: Set::empty(),
            paired: set![rank1.spec_as_int() as u8],
        },
        HandType::UnPaired => Labels { offsuit: set![name], suited: set![name], paired: Set::empty() },
    }
}

/// The combinations of a first rank with each of `steps` ranks from a
/// second rank upwards.
pub open spec fn ladder(first: int, second: int, steps: int) -> Set<u8> {
    Set::new(|name: u8| exists|v: int| second <= v < second + steps && name == #[trigger] label(first, v))
}

/// The pairs from a rank up to the Ace.
pub open spec fn pairs_from(rank: int) -> Set<u8> {
    Set::new(|name: u8| rank <= name <= 14)
}

/// The higher of the two ranks of a token, by its ordinal.
pub open spec fn high_rank(s: Seq<char>) -> int {
    let (rank1, rank2, class) = spec_parse_cards(s);
    if rank1.spec_as_int() >= rank2.spec_as_int() {
        rank1.spec_as_int()
    } else {
        rank2.spec_as_int()
    }
}

/// The lower of the two ranks of a token, by its ordinal.
pub open spec fn low_rank(s: Seq<char>) -> int {
    let (rank1, rank2, class) = spec_parse_cards(s);
    if rank1.spec_as_int() >= rank2.spec_as_int() {
        rank2.spec_as_int()
    } else {
        rank1.spec_as_int()
    }
}

/// The combinations that a token with the plus modifier names. A pair
/// names every pair from its rank up to the Ace. Two ranks name the higher
/// of them with every rank from the lower up to, and without, the higher:
/// the kicker widens toward the high card and never makes the pair.
pub open spec fn plus_labels(s: Seq<char>) -> Labels {
    let (rank1, rank2, class) = spec_parse_cards(s);
    let names = ladder(high_rank(s), low_rank(s), high_rank(s) - low_rank(s));
    match class {
        HandType::Offsuit => Labels { offsuit: names, suited: Set::empty(), paired: Set::empty() },
        HandType::Suited => Labels { offsuit: Set::empty(), suited: names, paired: Set::empty() },
        HandType::Paired => Labels {
            offsuit: Set::empty(),
            suited: Set::empty(),
            paired: pairs_from(rank1.spec_as_int()),
        },
        HandType::UnPaired => Labels { offsuit: names, suited: names, paired: Set::empty() },
    }
}

/// Adds the combinations of a token with the plus modifier. The token
/// begins with its two ranks.
pub fn generate_plus_combinations(s: &str, combinations: &mut Combinations)
    requires
        starts_with_ranks(s@),
    ensures
        final(combinations)@.same(old(combinations)@.union(plus_labels(s@))),
{
    let (rank1, rank2, hand_type) = parse_cards(s);
    let first: u8 = rank1.as_int() as u8;
    let second: u8 = rank2.as_int() as u8;
    match hand_type {
        HandType::Paired => {
            let gap: u8 = rank1.gap_with_ace() as u8;
            let mut i: u8 = 0;
            while i <= gap
                invariant
                    i <= gap + 1,
                    first + gap == 14,
                    combinations.offsuit == old(combinations).offsuit,
                    combinations.suited == old(combinations).suited,
                    combinations.paired@ =~= old(combinations).paired@.union(
                        Set::new(|name: u8| first <= name < first + i),
                    ),
                decreases gap + 1 - i,
            {
                let v: u8 = first + i;
                combinations.paired.insert(v);
                i += 1;
            }
        },
        _ => {
            let high: u8 = if first >= second {
                first
            } else {
                second
            };
            let low: u8 = if first >= second {
                second
            } else {
                first
            };
            let gap: u8 = rank1.gap(&rank2) as u8;
            let mut i: u8 = 0;
            while i < gap
                invariant
                    i <= gap,
                    2 <= high <= 14,
                    low + gap == high,
                    hand_type != HandType::Paired,
                    combinations.paired == old(combinations).paired,
                    hand_type == HandType::Suited ==> combinations.offsuit == old(
                        combinations,
                    ).offsuit,
                    hand_type == HandType::Offsuit ==> combinations.suited == old(
                        combinations,
                    ).suited,
                    hand_type != HandType::Suited ==> combinations.offsuit@ =~= old(
                        combinations,
                    ).offsuit@.union(ladder(high as int, low as int, i as int)),
                    hand_type != HandType::Offsuit ==> combinations.suited@ =~= old(
                        combinations,
                    ).suited@.union(ladder(high as int, low as int, i as int)),
                decreases gap - i,
            {
                let v: u8 = low + i;
                let name: u8 = high * 16 + v;
                proof {
                    lemma_ladder_step(high as int, low as int, i as int);
                }
                match hand_type {
                    HandType::Offsuit => {
                        combinations.offsuit.insert(name);
                    },
                    HandType::Suited => {
                        combinations.suited.insert(name);
                    },
                    _ => {
                        combinations.offsuit.insert(name);
                        combinations.suited.insert(name);
                    },
                }
                i += 1;
            }
        },
    }
}

/// One step more adds one name to a ladder.
proof fn lemma_ladder_step(first: int, second: int, steps: int)
    requires
        steps >= 0,
    ensures
        ladder(first, second, steps + 1) =~= ladder(first, second, steps).insert(
            label(first, second + steps),
        ),
{
    let more = ladder(first, second, steps + 1);
    let less = ladder(first, second, steps).insert(label(first, second + steps));
    assert forall|name: u8| more.contains(name) implies less.contains(name) by {
        let v = choose|v: int| second <= v < second + steps + 1 && name == #[trigger] label(first, v);
        if v < second + steps {
            assert(ladder(first, second, steps).contains(name));
        }
    }
    assert forall|name: u8| less.contains(name) implies more.contains(name) by {
        if name == label(first, second + steps) {
            assert(second <= second + steps < second + steps + 1);
        } else {
            let v = choose|v: int| second <= v < second + steps && name == #[trigger] label(first, v);
            assert(second <= v < second + steps + 1);
        }
    }
}

/// Adds the combinations of a token without the plus modifier. The token
/// begins with its two ranks.
pub fn generate_single_combinations(s: &str, combinations: &mut Combinations)
    requires
        starts_with_ranks(s@),
    ensures
        final(combinations)@.same(old(combinations)@.union(single_labels(s@))),
{
    let (rank1, rank2, hand_type) = parse_cards(s);
    let first: u8 = rank1.as_int() as u8;
    let second: u8 = rank2.as_int() as u8;
    let name: u8 = first * 16 + second;
    match hand_type {
        HandType::Offsuit => {
            combinations.offsuit.insert(name);
        },
        HandType::Suited => {
            combinations.suited.insert(name);
        },
        HandType::Paired => {
            combinations.paired.insert(first);
        },
        HandType::UnPaired => {
            combinations.offsuit.insert(name);
            combinations.suited.insert(name);
        },
    }
}

/// Whether a character is white space: the characters that Unicode gives
/// the property White_Space.
pub open spec fn spec_is_space(c: char) -> bool {
    let code = c as u32;
    ||| 0x09 <= code <= 0x0d
    ||| code == 0x20
    ||| code == 0x85
    ||| code == 0xa0
    ||| code == 0x1680
    ||| 0x2000 <= code <= 0x200a
    ||| code == 0x2028
    ||| code == 0x2029
    ||| code == 0x202f
    ||| code == 0x205f
    ||| code == 0x3000
}

pub fn is_space(c: char) -> (space: bool)
    ensures
        space == spec_is_space(c),
{
    let code: u32 = c as u32;
    (0x09 <= code && code <= 0x0d) || code == 0x20 || code == 0x85 || code == 0xa0 || code == 0x1680
        || (0x2000 <= code && code <= 0x200a) || code == 0x2028 || code == 0x2029 || code == 0x202f
        || code == 0x205f || code == 0x3000
}

/// Whether a character may stand behind the two ranks as the mark of
/// offsuit or suited: `o` or `s`, in either case.
pub open spec fn is_suit_mark(c: char) -> bool {
    c == 'o' || c == 'O' || c == 's' || c == 'S'
}

/// The grammar of a range token: two ranks, then at most one mark of
/// offsuit or suited, then at most one `+`, and nothing else.
pub open spec fn is_token(s: Seq<char>) -> bool {
    &&& starts_with_ranks(s)
    &&& {
        ||| s.len() == 2
        ||| s.len() == 3 && (is_suit_mark(s[2]) || s[2] == '+')
        ||| s.len() == 4 && is_suit_mark(s[2]) && s[3] == '+'
    }
}

/// Whether a text is a range token.
pub fn is_range_token(s: &str) -> (valid: bool)
    ensures
        valid == is_token(s@),
{
    let len: usize = s.unicode_len();
    if len < 2 || len > 4 {
        return false;
    }
    if Rank::from_char(s.get_char(0)).is_none() || Rank::from_char(s.get_char(1)).is_none() {
        return false;
    }
    if len == 2 {
        return true;
    }
    let third: char = s.get_char(2);
    let marked: bool = third == 'o' || third == 'O' || third == 's' || third == 'S';
    if len == 3 {
        marked || third == '+'
    } else {
        marked && s.get_char(3) == '+'
    }
}

/// The combinations that a token names.
pub open spec fn token_labels(s: Seq<char>) -> Labels {
    if s.contains('+') {
        plus_labels(s)
    } else {
        single_labels(s)
    }
}

/// What a token does to the combinations gathered so far. A text that is
/// no token is refused. Every token adds the combinations that it names.
pub open spec fn token_outcome(s: Seq<char>, labels: Labels) -> Result<Labels, Error> {
    if is_token(s) {
        Ok(labels.union(token_labels(s)))
    } else {
        Err(Error::UnexpectedCardChar)
    }
}

/// Reads one token and adds its combinations, or refuses it. Where it is
/// refused, the combinations stay as they were.
pub fn add_token(s: &str, combinations: &mut Combinations) -> (done: Result<(), Error>)
    ensures
        match token_outcome(s@, old(combinations)@) {
            Ok(labels) => done is Ok && final(combinations)@.same(labels),
            Err(e) => done == Err::<(), Error>(e) && final(combinations)@ == old(combinations)@,
        },
{
    if !is_range_token(s) {
        return Err(Error::UnexpectedCardChar);
    }
    let len: usize = s.unicode_len();
    let plus: bool = s.get_char(len - 1) == '+';
    proof {
        if plus {
            assert(s@[len - 1] == '+');
        }
        if s@.contains('+') {
            let k = choose|k: int| 0 <= k < s@.len() && s@[k] == '+';
            assert(k == len - 1);
        }
    }
    if plus {
        generate_plus_combinations(s, combinations);
    } else {
        generate_single_combinations(s, combinations);
    }
    Ok(())
}

/// The text without the white space at its start.
pub open spec fn trim_start(s: Seq<char>) -> Seq<char>
    decreases s.len(),
{
    if s.len() > 0 && spec_is_space(s[0]) {
        trim_start(s.drop_first())
    } else {
        s
    }
}

/// The text without the white space at its end.
pub open spec fn trim_end(s: Seq<char>) -> Seq<char>
    decreases s.len(),
{
    if s.len() > 0 && spec_is_space(s.last()) {
        trim_end(s.drop_last())
    } else {
        s
    }
}

/// The text without the white space around it.
pub open spec fn trim(s: Seq<char>) -> Seq<char> {
    trim_end(trim_start(s))
}

/// The position of the first comma of a text, or its length where it has
/// none.
pub open spec fn first_comma(s: Seq<char>) -> int
    decreases s.len(),
{
    if s.len() == 0 || s[0] == ',' {
        0
    } else {
        1 + first_comma(s.drop_first())
    }
}

/// The tokens of a range: the pieces between its commas, each without the
/// white space around it. A text without a comma is one piece.
pub open spec fn tokens(s: Seq<char>) -> Seq<Seq<char>>
    decreases s.len(),
{
    let k = first_comma(s);
    if 0 <= k < s.len() {
        seq![trim(s.take(k))] + tokens(s.skip(k + 1))
    } else {
        seq![trim(s)]
    }
}

/// The combinations of a list of tokens, read from the first on: the first
/// token that is refused refuses the whole list.
pub open spec fn gather(list: Seq<Seq<char>>, labels: Labels) -> Result<Labels, Error>
    decreases list.len(),
{
    if list.len() == 0 {
        Ok(labels)
    } else {
        match token_outcome(list[0], labels) {
            Err(e) => Err(e),
            Ok(next) => gather(list.drop_first(), next),
        }
    }
}

/// The number of deals of two cards that a range stands for, of the 1326
/// that there are; or the failure of its first token that is refused.
pub open spec fn range_deals(s: Seq<char>) -> Result<nat, Error> {
    match gather(tokens(s), Labels::empty()) {
        Ok(labels) => Ok(labels.deals()),
        Err(e) => Err(e),
    }
}

/// The first comma lies where no comma stands before it.
proof fn lemma_first_comma(s: Seq<char>, k: int)
    requires
        0 <= k <= s.len(),
        forall|i: int| 0 <= i < k ==> s[i] != ',',
        k < s.len() ==> s[k] == ',',
    ensures
        first_comma(s) == k,
    decreases s.len(),
{
    if s.len() == 0 || s[0] == ',' {
    } else {
        let rest = s.drop_first();
        assert forall|i: int| 0 <= i < k - 1 implies rest[i] != ',' by {
            assert(rest[i] == s[i + 1]);
        }
        lemma_first_comma(rest, k - 1);
    }
}

/// White space at the start of a piece falls away.
proof fn lemma_trim_start(s: Seq<char>, k: int)
    requires
        0 <= k <= s.len(),
        forall|i: int| 0 <= i < k ==> spec_is_space(s[i]),
        k < s.len() ==> !spec_is_space(s[k]),
    ensures
        trim_start(s) == s.skip(k),
    decreases s.len(),
{
    if s.len() > 0 && spec_is_space(s[0]) {
        let rest = s.drop_first();
        assert forall|i: int| 0 <= i < k - 1 implies spec_is_space(rest[i]) by {
            assert(rest[i] == s[i + 1]);
        }
        lemma_trim_start(rest, k - 1);
        assert(rest.skip(k - 1) == s.skip(k));
    } else {
        assert(s.skip(0) == s);
    }
}

/// White space at the end of a piece falls away.
proof fn lemma_trim_end(s: Seq<char>, k: int)
    requires
        0 <= k <= s.len(),
        forall|i: int| k <= i < s.len() ==> spec_is_space(s[i]),
        k > 0 ==> !spec_is_space(s[k - 1]),
    ensures
        trim_end(s) == s.take(k),
    decreases s.len(),
{
    if s.len() > 0 && spec_is_space(s.last()) {
        let rest = s.drop_last();
        lemma_trim_end(rest, k);
        assert(rest.take(k) == s.take(k));
    } else {
        assert(s.take(s.len() as int) == s);
    }
}

/// The characters of a text, one by one.
fn characters(s: &str) -> (chars: Vec<char>)
    ensures
        chars@ == s@,
{
    let mut chars: Vec<char> = Vec::new();
    for c in it: s.chars()
        invariant
            it.seq() == s@,
            chars@ == s@.take(it.index()),
    {
        chars.push(c);
        proof {
            assert(s@.take(it.index() + 1) == s@.take(it.index()).push(c));
        }
    }
    proof {
        assert(s@.take(s@.len() as int) == s@);
    }
    chars
}

/// Whether a list of texts holds the given texts, one for one.
pub open spec fn same_texts(list: Seq<String>, texts: Seq<Seq<char>>) -> bool {
    &&& list.len() == texts.len()
    &&& forall|i: int| 0 <= i < list.len() ==> (#[trigger] list[i])@ == texts[i]
}

/// Cuts a range into its tokens.
pub fn tokens_of(s: &str) -> (list: Vec<String>)
    ensures
        same_texts(list@, tokens(s@)),
{
    let chars: Vec<char> = characters(s);
    let n: usize = chars.len();
    let mut list: Vec<String> = Vec::new();
    let mut start: usize = 0;
    let ghost mut done: Seq<Seq<char>> = Seq::empty();
    proof {
        assert(s@.skip(0) == s@);
    }
    loop
        invariant
            start <= n,
            n == s@.len(),
            chars@ == s@,
            same_texts(list@, done),
            done + tokens(s@.skip(start as int)) == tokens(s@),
        decreases n - start,
    {
        let ghost rest = s@.skip(start as int);
        let mut end: usize = start;
        while end < n && chars[end] != ','
            invariant
                start <= end <= n,
                n == s@.len(),
                chars@ == s@,
                forall|i: int| start <= i < end ==> s@[i] != ',',
            decreases n - end,
        {
            end += 1;
        }
        let mut from: usize = start;
        while from < end && is_space(chars[from])
            invariant
                start <= from <= end <= n,
                n == s@.len(),
                chars@ == s@,
                forall|i: int| start <= i < from ==> spec_is_space(s@[i]),
            decreases end - from,
        {
            from += 1;
        }
        let mut to: usize = end;
        while to > from && is_space(chars[to - 1])
            invariant
                from <= to <= end <= n,
                n == s@.len(),
                chars@ == s@,
                forall|i: int| to <= i < end ==> spec_is_space(s@[i]),
            decreases to,
        {
            to -= 1;
        }
        let token: &str = s.substring_char(from, to);
        proof {
            let piece = s@.subrange(start as int, end as int);
            lemma_first_comma(rest, end - start);
            assert(rest.take(end - start) == piece);
            lemma_trim_start(piece, from - start);
            assert(piece.skip(from - start) == s@.subrange(from as int, end as int));
            lemma_trim_end(s@.subrange(from as int, end as int), to - from);
            assert(s@.subrange(from as int, end as int).take(to - from) == s@.subrange(
                from as int,
                to as int,
            ));
            assert(trim(piece) == token@);
            if end < n {
                assert(rest.skip(end - start + 1) == s@.skip(end + 1));
                assert(tokens(rest) == seq![token@] + tokens(s@.skip(end + 1)));
                assert(done.push(token@) + tokens(s@.skip(end + 1)) == done + tokens(rest));
            } else {
                assert(rest.take(end - start) == rest);
                assert(tokens(rest) == seq![token@]);
                assert(done.push(token@) == done + tokens(rest));
            }
        }
        list.push(token.to_owned());
        proof {
            done = done.push(token@);
        }
        if end >= n {
            return list;
        }
        start = end + 1;
    }
}

/// Counts the deals of two cards that a range stands for.
pub fn calculate_range_combinations(s: &str) -> (deals: Result<usize, Error>)
    ensures
        match range_deals(s@) {
            Ok(n) => deals matches Ok(d) && d == n,
            Err(e) => deals matches Err(f) && f == e,
        },
{
    let ranges: Vec<String> = tokens_of(s);
    let mut combinations = Combinations::new();
    let mut i: usize = 0;
    proof {
        assert(tokens(s@).skip(0) == tokens(s@));
    }
    while i < ranges.len()
        invariant
            i <= ranges@.len(),
            same_texts(ranges@, tokens(s@)),
            gather(tokens(s@).skip(i as int), combinations@) == gather(
                tokens(s@),
                Labels::empty(),
            ),
        decreases ranges@.len() - i,
    {
        let ghost before = combinations@;
        let ghost rest = tokens(s@).skip(i as int);
        proof {
            assert(rest[0] == ranges@[i as int]@);
            assert(rest.drop_first() == tokens(s@).skip(i + 1));
        }
        match add_token(ranges[i].as_str(), &mut combinations) {
            Err(e) => {
                return Err(e);
            },
            Ok(()) => {},
        }
        proof {
            let next = token_outcome(rest[0], before).unwrap();
            assert(combinations@.same(next));
            assert(combinations@ == next);
        }
        i += 1;
    }
    proof {
        assert(tokens(s@).skip(i as int) == Seq::<Seq<char>>::empty());
    }
    let total_count: usize = combinations.len_of_offsuit() * SPEC_OFF_SUIT_COMBINATIONS
        + combinations.len_of_suited() * SPEC_SUITED_COMBINATIONS + combinations.len_of_paired()
        * SPEC_PAIRED_COMBINATIONS;
    Ok(total_count)
}

/// The three classes of combinations.
pub enum CombinationClass {
    Offsuit,
    Suited,
    Paired,
}

impl Labels {
    /// The combinations of one class.
    pub open spec fn of(self, class: CombinationClass) -> Set<u8> {
        match class {
            CombinationClass::Offsuit => self.offsuit,
            CombinationClass::Suited => self.suited,
            CombinationClass::Paired => self.paired,
        }
    }
}

/// The combinations of one class that any token of a list names.
pub open spec fn list_names(list: Seq<Seq<char>>, class: CombinationClass) -> Set<u8> {
    Set::new(
        |name: u8|
            exists|i: int|
                0 <= i < list.len() && (#[trigger] token_labels(list[i])).of(class).contains(name),
    )
}

/// The combinations that any token of a list names.
pub open spec fn list_labels(list: Seq<Seq<char>>) -> Labels {
    Labels {
        offsuit: list_names(list, CombinationClass::Offsuit),
        suited: list_names(list, CombinationClass::Suited),
        paired: list_names(list, CombinationClass::Paired),
    }
}

/// A list is refused exactly when one of its tokens is no token of the
/// grammar, and there is no other failure. A list of tokens gives the
/// combinations gathered before it together with those that any of its
/// tokens names: each once, however many tokens name it.
pub proof fn lemma_gather_is_union(list: Seq<Seq<char>>, labels: Labels)
    ensures
        gather(list, labels) is Ok <==> forall|i: int|
            0 <= i < list.len() ==> is_token(#[trigger] list[i]),
        gather(list, labels) matches Ok(all) ==> all == labels.union(list_labels(list)),
        gather(list, labels) matches Err(e) ==> e == Error::UnexpectedCardChar,
    decreases list.len(),
{
    if list.len() == 0 {
        let none = list_labels(list);
        assert(labels.union(none).same(labels));
    } else {
        let rest = list.drop_first();
        assert forall|i: int| 0 <= i < rest.len() implies rest[i] == list[i + 1] by {
        }
        if is_token(list[0]) {
            let next = labels.union(token_labels(list[0]));
            lemma_gather_is_union(rest, next);
            if forall|i: int| 0 <= i < rest.len() ==> is_token(#[trigger] rest[i]) {
                assert forall|i: int| 0 <= i < list.len() implies is_token(#[trigger] list[i]) by {
                    if i > 0 {
                        assert(is_token(rest[i - 1]));
                    }
                }
                let all = next.union(list_labels(rest));
                let goal = labels.union(list_labels(list));
                lemma_list_names_split(list, CombinationClass::Offsuit);
                lemma_list_names_split(list, CombinationClass::Suited);
                lemma_list_names_split(list, CombinationClass::Paired);
                assert(all.same(goal));
            } else {
                let i = choose|i: int| 0 <= i < rest.len() && !is_token(#[trigger] rest[i]);
                assert(!is_token(list[i + 1]));
            }
        }
    }
}

/// The combinations of a list are those of its first token and those of
/// the rest.
proof fn lemma_list_names_split(list: Seq<Seq<char>>, class: CombinationClass)
    requires
        list.len() > 0,
    ensures
        list_names(list, class) =~= token_labels(list[0]).of(class).union(
            list_names(list.drop_first(), class),
        ),
{
    let rest = list.drop_first();
    let whole = list_names(list, class);
    let parts = token_labels(list[0]).of(class).union(list_names(rest, class));
    assert forall|i: int| 0 <= i < rest.len() implies rest[i] == list[i + 1] by {
    }
    assert forall|name: u8| whole.contains(name) <==> parts.contains(name) by {
        if whole.contains(name) {
            let i = choose|i: int|
                0 <= i < list.len() && (#[trigger] token_labels(list[i])).of(class).contains(name);
            if i > 0 {
                assert(token_labels(rest[i - 1]).of(class).contains(name));
            }
        }
        if list_names(rest, class).contains(name) {
            let i = choose|i: int|
                0 <= i < rest.len() && (#[trigger] token_labels(rest[i])).of(class).contains(name);
            assert(token_labels(list[i + 1]).of(class).contains(name));
        }
    }
}

/// Two lists of tokens that name the same combinations give the same
/// result: the order of the tokens, tokens that occur more than once and
/// tokens that name what others name already make no difference.
pub proof fn lemma_same_labels_same_deals(one: Seq<Seq<char>>, other: Seq<Seq<char>>)
    requires
        forall|i: int| 0 <= i < one.len() ==> is_token(#[trigger] one[i]),
        forall|i: int| 0 <= i < other.len() ==> is_token(#[trigger] other[i]),
        list_labels(one).same(list_labels(other)),
    ensures
        gather(one, Labels::empty()) == gather(other, Labels::empty()),
{
    lemma_gather_is_union(one, Labels::empty());
    lemma_gather_is_union(other, Labels::empty());
}

/// Two lists in which the same texts occur, in whatever order and however
/// often, give the same result: the same combinations, or the same
/// refusal.
pub proof fn lemma_order_and_repeats(one: Seq<Seq<char>>, other: Seq<Seq<char>>)
    requires
        one.to_set() == other.to_set(),
    ensures
        gather(one, Labels::empty()) == gather(other, Labels::empty()),
{
    lemma_gather_is_union(one, Labels::empty());
    lemma_gather_is_union(other, Labels::empty());
    lemma_same_texts(one, other);
    lemma_same_texts(other, one);
    if forall|i: int| 0 <= i < one.len() ==> is_token(#[trigger] one[i]) {
        assert forall|i: int| 0 <= i < other.len() implies is_token(#[trigger] other[i]) by {
            assert(one.contains(other[i]));
            let j = choose|j: int| 0 <= j < one.len() && one[j] == other[i];
            assert(is_token(one[j]));
        }
        lemma_names_of_texts(one, other, CombinationClass::Offsuit);
        lemma_names_of_texts(one, other, CombinationClass::Suited);
        lemma_names_of_texts(one, other, CombinationClass::Paired);
        lemma_names_of_texts(other, one, CombinationClass::Offsuit);
        lemma_names_of_texts(other, one, CombinationClass::Suited);
        lemma_names_of_texts(other, one, CombinationClass::Paired);
        assert(list_labels(one).same(list_labels(other)));
    } else {
        let i = choose|i: int| 0 <= i < one.len() && !is_token(#[trigger] one[i]);
        assert(other.contains(one[i]));
        let j = choose|j: int| 0 <= j < other.len() && other[j] == one[i];
        assert(!is_token(other[j]));
    }
}

/// Every text of a list occurs in a list with the same texts.
proof fn lemma_same_texts(one: Seq<Seq<char>>, other: Seq<Seq<char>>)
    requires
        one.to_set() == other.to_set(),
    ensures
        forall|i: int| 0 <= i < one.len() ==> other.contains(#[trigger] one[i]),
{
    assert forall|i: int| 0 <= i < one.len() implies other.contains(#[trigger] one[i]) by {
        assert(one.to_set().contains(one[i]));
        assert(other.to_set().contains(one[i]));
    }
}

/// Whatever a list names, a list in which all its texts occur names too.
proof fn lemma_names_of_texts(
    one: Seq<Seq<char>>,
    other: Seq<Seq<char>>,
    class: CombinationClass,
)
    requires
        forall|i: int| 0 <= i < one.len() ==> other.contains(#[trigger] one[i]),
    ensures
        list_names(one, class).subset_of(list_names(other, class)),
{
    assert forall|name: u8| list_names(one, class).contains(name) implies list_names(
        other,
        class,
    ).contains(name) by {
        let i = choose|i: int|
            0 <= i < one.len() && (#[trigger] token_labels(one[i])).of(class).contains(name);
        assert(other.contains(one[i]));
        let j = choose|j: int| 0 <= j < other.len() && other[j] == one[i];
        assert(token_labels(other[j]).of(class).contains(name));
    }
}

/// A ladder whose steps stay among the ranks has as many names as steps.
proof fn lemma_ladder_len(first: int, second: int, steps: int)
    requires
        2 <= first <= 14,
        2 <= second,
        0 <= steps,
        second + steps <= 15,
    ensures
        ladder(first, second, steps).finite(),
        ladder(first, second, steps).len() == steps,
    decreases steps,
{
    if steps == 0 {
        assert(ladder(first, second, 0) =~= Set::<u8>::empty());
    } else {
        lemma_ladder_len(first, second, steps - 1);
        lemma_ladder_step(first, second, steps - 1);
        let less = ladder(first, second, steps - 1);
        let name = label(first, second + steps - 1);
        assert(!less.contains(name)) by {
            if less.contains(name) {
                let v = choose|v: int|
                    second <= v < second + steps - 1 && name == #[trigger] label(first, v);
                assert(first * 16 + v == first * 16 + second + steps - 1);
            }
        }
    }
}

/// The pairs from a rank up to the Ace are as many as the ranks from it up
/// to the Ace.
proof fn lemma_pairs_len(rank: int)
    requires
        2 <= rank <= 15,
    ensures
        pairs_from(rank).finite(),
        pairs_from(rank).len() == 15 - rank,
    decreases 15 - rank,
{
    if rank == 15 {
        assert(pairs_from(15) =~= Set::<u8>::empty());
    } else {
        lemma_pairs_len(rank + 1);
        assert(pairs_from(rank) =~= pairs_from(rank + 1).insert(rank as u8));
    }
}

/// A token stands, by itself, for as many deals as its combinations: the
/// counts of `calculate_single_range` and `calculate_plus_range` are the
/// deals of what the token names.
pub proof fn lemma_token_deals(s: Seq<char>)
    requires
        starts_with_ranks(s),
    ensures
        token_labels(s).deals() == if s.contains('+') {
            plus_range_count(s)
        } else {
            single_range_count(s)
        },
{
    let (rank1, rank2, class) = spec_parse_cards(s);
    let first = rank1.spec_as_int();
    let second = rank2.spec_as_int();
    let none = Set::<u8>::empty();
    assert(none.len() == 0);
    if s.contains('+') {
        lemma_pairs_len(first);
        if class != HandType::Paired {
            lemma_ladder_len(high_rank(s), low_rank(s), high_rank(s) - low_rank(s));
        }
    } else {
        let name = label(first, second);
        assert(set![name].len() == 1);
        assert(set![first as u8].len() == 1);
    }
}

} // verus!
