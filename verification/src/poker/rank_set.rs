//! Sets of ranks as sixteen-bit masks: bit 0 stands for the Two, bit 12 for
//! the Ace. The ranking engine works on such sets; this module says what
//! its bit operations mean.

use vstd::prelude::*;

verus! {

/// The ranks of the lowest straight: Ace, Two, Three, Four, Five.
pub const WHEEL: u16 = 0x100f;

/// The sets of ranks have thirteen members at most.
pub const ALL_RANKS: u16 = 0x1fff;

/// 1 if position `k` is a member of the set, else 0.
pub open spec fn bit_at(m: u16, k: u16) -> u16 {
    (m >> k) & 1
}

/// The number of members of the set.
pub open spec fn ones(m: u16) -> nat {
    (bit_at(m, 0) + bit_at(m, 1) + bit_at(m, 2) + bit_at(m, 3) + bit_at(m, 4) + bit_at(m, 5)
        + bit_at(m, 6) + bit_at(m, 7) + bit_at(m, 8) + bit_at(m, 9) + bit_at(m, 10) + bit_at(
        m,
        11,
    ) + bit_at(m, 12) + bit_at(m, 13) + bit_at(m, 14) + bit_at(m, 15)) as nat
}

/// `u16::count_ones` of std returns the number of bits that are set in the
/// binary form of its argument, which is what `ones` adds up, one position
/// at a time.
pub assume_specification[ u16::count_ones ](i: u16) -> (r: u32)
    ensures
        r == ones(i),
;

/// Whether `part` holds no rank that `whole` lacks.
pub open spec fn subset(part: u16, whole: u16) -> bool {
    part & whole == part
}

/// The set without its lowest member; the empty set stays empty.
pub open spec fn drop_lowest(m: u16) -> u16 {
    m & ((m - 1) as u16)
}

/// The `n` highest members of the set, or all of it where it has no more
/// than `n`: the lowest member leaves until `n` are left.
pub open spec fn keep_top(m: u16, n: nat) -> u16
    decreases m,
    via keep_top_decreases
{
    if ones(m) <= n {
        m
    } else {
        keep_top(drop_lowest(m), n)
    }
}

#[via_fn]
proof fn keep_top_decreases(m: u16, n: nat) {
    assert((m != 0 ==> m & ((m - 1) as u16) < m) && (m == 0 ==> ones(m) == 0)) by (bit_vector);
}

/// The set that holds only the highest member of `m`; empty where `m` is.
pub open spec fn highest(m: u16) -> u16 {
    keep_top(m, 1)
}

/// Whether the five ranks from position `low` upwards are all in the set.
pub open spec fn has_run(m: u16, low: u16) -> bool {
    (m >> low) & 0x1f == 0x1f
}

/// The number of the highest run of five consecutive ranks in a set of
/// thirteen ranks: 1 for Two to Six, up to 9 for Ten to Ace; 0 where there is
/// no run.
pub open spec fn highest_run(m: u16) -> u16 {
    if has_run(m, 8) {
        9
    } else if has_run(m, 7) {
        8
    } else if has_run(m, 6) {
        7
    } else if has_run(m, 5) {
        6
    } else if has_run(m, 4) {
        5
    } else if has_run(m, 3) {
        4
    } else if has_run(m, 2) {
        3
    } else if has_run(m, 1) {
        2
    } else if has_run(m, 0) {
        1
    } else {
        0
    }
}

/// Whether the set holds the wheel.
pub open spec fn has_wheel(m: u16) -> bool {
    m & WHEEL == WHEEL
}

/// The straight that a set of ranks holds: the number of its highest run,
/// or 0 for the wheel where there is no run, so that the wheel is the lowest
/// straight although it holds the Ace.
pub open spec fn straight_rank(m: u16) -> Option<u16> {
    if highest_run(m) != 0 {
        Some(highest_run(m))
    } else if has_wheel(m) {
        Some(0u16)
    } else {
        None
    }
}

/// The tie-break value of a hand whose defining group is `major` and whose
/// kickers are `minor`: the group stands above the kickers. The value has
/// sixteen bits, so of the group only the Two, the Three and the Four are
/// kept.
pub open spec fn pack(major: u16, minor: u16) -> u16 {
    (major << 13) | minor
}

/// A set is empty exactly when it has no members, and it has sixteen at
/// most.
pub proof fn lemma_ones_bounds(m: u16)
    ensures
        ones(m) <= 16,
        ones(m) == 0 <==> m == 0,
        m <= ALL_RANKS ==> ones(m) <= 13,
{
    assert(ones(m) <= 16 && (ones(m) == 0 <==> m == 0) && (m <= 0x1fff ==> ones(m) <= 13))
        by (bit_vector);
}

/// Dropping the lowest member of a set that is not empty leaves a smaller
/// set inside it, with one member fewer.
pub proof fn lemma_drop_lowest(m: u16)
    requires
        m != 0,
    ensures
        drop_lowest(m) < m,
        subset(drop_lowest(m), m),
        ones(drop_lowest(m)) + 1 == ones(m),
{
    let d = drop_lowest(m);
    let low: u16 = m & !d;
    assert(d < m && d & m == d && low != 0 && low & ((low - 1) as u16) == 0 && d & low == 0 && d
        | low == m) by (bit_vector)
        requires
            m != 0,
            d == m & ((m - 1) as u16),
            low == m & !d,
    ;
    lemma_ones_disjoint(d, low);
    lemma_ones_single(low);
}

/// A set has one member exactly when it is not empty and dropping its
/// lowest member empties it.
pub proof fn lemma_ones_single(b: u16)
    ensures
        ones(b) == 1 <==> b != 0 && drop_lowest(b) == 0,
{
    assert(ones(b) == 1 <==> b != 0 && b & ((b - 1) as u16) == 0) by (bit_vector);
}

/// The members of two sets that share none add up.
pub proof fn lemma_ones_disjoint(a: u16, b: u16)
    requires
        a & b == 0,
    ensures
        ones(a | b) == ones(a) + ones(b),
        ones(a ^ b) == ones(a) + ones(b),
{
    assert forall|k: u16| k < 16 implies #[trigger] bit_at(a | b, k) == bit_at(a, k) + bit_at(
        b,
        k,
    ) && bit_at(a ^ b, k) == bit_at(a, k) + bit_at(b, k) by {
        assert(((a | b) >> k) & 1 == ((a >> k) & 1) + ((b >> k) & 1) && ((a ^ b) >> k) & 1 == ((a
            >> k) & 1) + ((b >> k) & 1)) by (bit_vector)
            requires
                a & b == 0,
                k < 16,
        ;
    }
    lemma_ones_unfold(a | b);
    lemma_ones_unfold(a ^ b);
    lemma_ones_unfold(a);
    lemma_ones_unfold(b);
}

/// Names every term of `ones`, so that facts stated for all positions reach
/// each of them.
proof fn lemma_ones_unfold(m: u16)
    ensures
        ones(m) == bit_at(m, 0u16) + bit_at(m, 1u16) + bit_at(m, 2u16) + bit_at(m, 3u16) + bit_at(
            m,
            4u16,
        ) + bit_at(m, 5u16) + bit_at(m, 6u16) + bit_at(m, 7u16) + bit_at(m, 8u16) + bit_at(
            m,
            9u16,
        ) + bit_at(m, 10u16) + bit_at(m, 11u16) + bit_at(m, 12u16) + bit_at(m, 13u16) + bit_at(
            m,
            14u16,
        ) + bit_at(m, 15u16),
{
}

/// A part of a set has no more members than the set, and is no greater as
/// a number.
pub proof fn lemma_subset(part: u16, whole: u16)
    requires
        subset(part, whole),
    ensures
        ones(part) <= ones(whole),
        part <= whole,
        ones(whole ^ part) + ones(part) == ones(whole),
        ones(part) == ones(whole) ==> part == whole,
        whole ^ part == 0 <==> whole == part,
        subset(whole ^ part, whole),
        (whole ^ part) & part == 0,
        (whole ^ part) | part == whole,
{
    let rest: u16 = whole ^ part;
    assert(rest & part == 0 && rest | part == whole && part <= whole && (rest == 0 <==> part
        == whole) && rest & whole == rest) by (bit_vector)
        requires
            part & whole == part,
            rest == whole ^ part,
    ;
    lemma_ones_disjoint(rest, part);
    lemma_ones_bounds(rest);
}

/// The set that holds only the lowest member of `m`; empty where `m` is.
pub open spec fn lowest(m: u16) -> u16 {
    m ^ drop_lowest(m)
}

/// What `keep_top` keeps: a part of the set, with `n` members or all of
/// them, and everything that was left out lies below everything that was
/// kept.
pub proof fn lemma_keep_top(m: u16, n: nat)
    ensures
        subset(keep_top(m, n), m),
        ones(keep_top(m, n)) == if ones(m) <= n { ones(m) } else { n },
        ones(m) <= n ==> keep_top(m, n) == m,
        keep_top(m, n) != 0 ==> (m ^ keep_top(m, n)) < keep_top(m, n),
        keep_top(m, n) != 0 ==> (m ^ keep_top(m, n)) < lowest(keep_top(m, n)),
        n > 0 && m != 0 ==> keep_top(m, n) != 0,
    decreases m,
{
    lemma_ones_bounds(m);
    if ones(m) <= n {
        assert(m & m == m && m ^ m == 0 && (m != 0 ==> 0 < m ^ (m & ((m - 1) as u16))))
            by (bit_vector);
    } else {
        let d = drop_lowest(m);
        lemma_drop_lowest(m);
        lemma_keep_top(d, n);
        let k = keep_top(d, n);
        lemma_ones_bounds(d);
        lemma_ones_bounds(k);
        assert(k & m == k && (k != 0 ==> (m ^ k) < k && (m ^ k) < k ^ (k & ((k - 1) as u16))))
            by (bit_vector)
            requires
                m != 0,
                d == m & ((m - 1) as u16),
                k & d == k,
                k != 0 ==> (d ^ k) < k ^ (k & ((k - 1) as u16)),
        ;
    }
}

/// Of all the parts of a set with `n` members at most, `keep_top` is the
/// greatest as a number.
pub proof fn lemma_keep_top_greatest(m: u16, n: nat, part: u16)
    requires
        subset(part, m),
        ones(part) <= n,
    ensures
        part <= keep_top(m, n),
    decreases m,
{
    lemma_ones_bounds(m);
    if ones(m) <= n {
        lemma_subset(part, m);
    } else {
        let d = drop_lowest(m);
        lemma_drop_lowest(m);
        lemma_subset(part, m);
        let low: u16 = m & !d;
        if part & low == 0 {
            assert(part & d == part) by (bit_vector)
                requires
                    part & m == part,
                    d == m & ((m - 1) as u16),
                    low == m & !d,
                    part & low == 0,
            ;
            lemma_keep_top_greatest(d, n, part);
        } else {
            // Trade the lowest member of the set for one that the part lacks.
            let rest: u16 = m ^ part;
            lemma_ones_bounds(rest);
            let gain: u16 = rest & !((rest & ((rest - 1) as u16)));
            let lifted: u16 = (part ^ low) | gain;
            assert(lifted & d == lifted && part < lifted && (part ^ low) & gain == 0 && (part
                ^ low) & low == 0 && (part ^ low) | low == part && gain != 0 && gain & ((gain
                - 1) as u16) == 0 && low != 0 && low & ((low - 1) as u16) == 0) by (bit_vector)
                requires
                    m != 0,
                    part & m == part,
                    d == m & ((m - 1) as u16),
                    low == m & !d,
                    part & low != 0,
                    rest == m ^ part,
                    rest != 0,
                    gain == rest & !((rest & ((rest - 1) as u16))),
                    lifted == (part ^ low) | gain,
            ;
            lemma_ones_single(gain);
            lemma_ones_single(low);
            lemma_ones_disjoint(part ^ low, gain);
            lemma_ones_disjoint(part ^ low, low);
            lemma_keep_top_greatest(d, n, lifted);
        }
    }
}

/// Facts about sets and their parts.
pub proof fn lemma_parts(a: u16, b: u16, c: u16)
    ensures
        subset(a, b) && subset(b, c) ==> subset(a, c),
        subset(a, b) && subset(c, a) ==> subset(a ^ c, b ^ c),
        subset(a, b | c) && a & c == 0 ==> subset(a, b),
        subset(a, b) && a != 0 ==> b != 0,
        subset(a, b) && b <= ALL_RANKS ==> a <= ALL_RANKS,
        subset(a, c) && subset(b, c) ==> subset(a | b, c),
        subset(a, a | b) && subset(b, a | b),
        a & b == 0 ==> (a | b) ^ b == a,
        a & c == 0 && b & c == 0 ==> (a | b) & c == 0,
        a & b == 0 ==> b & a == 0,
        a | 0 == a && 0 | a == a && a & 0 == 0 && 0 & a == 0 && a ^ 0 == a,
{
    assert((a & b == a && b & c == b ==> a & c == a) && (a & b == a && c & a == c ==> (a ^ c) & (b
        ^ c) == a ^ c) && (a & (b | c) == a && a & c == 0 ==> a & b == a) && (a & b == a && a != 0
        ==> b != 0) && (a & b == a && b <= 0x1fff ==> a <= 0x1fff) && (a & c == a && b & c == b
        ==> (a | b) & c == a | b) && (a & (a | b) == a && b & (a | b) == b) && (a & b == 0 ==> (a
        | b) ^ b == a) && (a & c == 0 && b & c == 0 ==> (a | b) & c == 0) && (a & b == 0 ==> b & a
        == 0) && (a | 0 == a && 0 | a == a && a & 0 == 0 && 0 & a == 0 && a ^ 0 == a))
        by (bit_vector);
}

/// Two sets with the same members are the same set.
pub proof fn lemma_equal_bits(a: u16, b: u16)
    requires
        forall|k: u16| k < 16 ==> #[trigger] bit_at(a, k) == bit_at(b, k),
    ensures
        a == b,
{
    assert(bit_at(a, 0) == bit_at(b, 0) && bit_at(a, 1) == bit_at(b, 1) && bit_at(a, 2) == bit_at(
        b,
        2,
    ) && bit_at(a, 3) == bit_at(b, 3));
    assert(bit_at(a, 4) == bit_at(b, 4) && bit_at(a, 5) == bit_at(b, 5) && bit_at(a, 6) == bit_at(
        b,
        6,
    ) && bit_at(a, 7) == bit_at(b, 7));
    assert(bit_at(a, 8) == bit_at(b, 8) && bit_at(a, 9) == bit_at(b, 9) && bit_at(a, 10) == bit_at(
        b,
        10,
    ) && bit_at(a, 11) == bit_at(b, 11));
    assert(bit_at(a, 12) == bit_at(b, 12) && bit_at(a, 13) == bit_at(b, 13) && bit_at(a, 14)
        == bit_at(b, 14) && bit_at(a, 15) == bit_at(b, 15));
    assert(a == b) by (bit_vector)
        requires
            (a >> 0u16) & 1 == (b >> 0u16) & 1,
            (a >> 1u16) & 1 == (b >> 1u16) & 1,
            (a >> 2u16) & 1 == (b >> 2u16) & 1,
            (a >> 3u16) & 1 == (b >> 3u16) & 1,
            (a >> 4u16) & 1 == (b >> 4u16) & 1,
            (a >> 5u16) & 1 == (b >> 5u16) & 1,
            (a >> 6u16) & 1 == (b >> 6u16) & 1,
            (a >> 7u16) & 1 == (b >> 7u16) & 1,
            (a >> 8u16) & 1 == (b >> 8u16) & 1,
            (a >> 9u16) & 1 == (b >> 9u16) & 1,
            (a >> 10u16) & 1 == (b >> 10u16) & 1,
            (a >> 11u16) & 1 == (b >> 11u16) & 1,
            (a >> 12u16) & 1 == (b >> 12u16) & 1,
            (a >> 13u16) & 1 == (b >> 13u16) & 1,
            (a >> 14u16) & 1 == (b >> 14u16) & 1,
            (a >> 15u16) & 1 == (b >> 15u16) & 1,
    ;
}

/// A straight takes five ranks.
pub proof fn lemma_straight_needs_five(m: u16)
    ensures
        straight_rank(m) is Some ==> ones(m) >= 5,
        straight_rank(m) matches Some(k) ==> k <= 9,
{
    assert((highest_run(m) != 0 || m & 0x100f == 0x100f) ==> ones(m) >= 5) by (bit_vector);
}

/// Adding a member to a set changes the one position, and the count where
/// the member is new.
pub proof fn lemma_set_bit(m: u16, at: u16)
    requires
        at < 16,
    ensures
        forall|k: u16|
            k < 16 ==> #[trigger] bit_at(m | (1u16 << at), k) == if k == at {
                1u16
            } else {
                bit_at(m, k)
            },
        m & (1u16 << at) == 0 <==> bit_at(m, at) == 0,
        bit_at(m, at) <= 1,
        m & (1u16 << at) == 0 ==> ones(m | (1u16 << at)) == ones(m) + 1,
        m <= ALL_RANKS && at < 13 ==> m | (1u16 << at) <= ALL_RANKS,
{
    assert forall|k: u16| k < 16 implies #[trigger] bit_at(m | (1u16 << at), k) == if k == at {
        1u16
    } else {
        bit_at(m, k)
    } by {
        assert(((m | (1u16 << at)) >> k) & 1 == if k == at {
            1u16
        } else {
            (m >> k) & 1
        }) by (bit_vector)
            requires
                k < 16,
                at < 16,
        ;
    }
    assert((m & (1u16 << at) == 0 <==> (m >> at) & 1 == 0) && (m <= 0x1fff && at < 13 ==> m | (1u16
        << at) <= 0x1fff) && (m >> at) & 1 <= 1) by (bit_vector)
        requires
            at < 16,
    ;
    let n = m | (1u16 << at);
    assert(bit_at(n, 0) + bit_at(n, 1) + bit_at(n, 2) + bit_at(n, 3) + bit_at(n, 4) + bit_at(n, 5)
        + bit_at(n, 6) + bit_at(n, 7) + bit_at(n, 8) + bit_at(n, 9) + bit_at(n, 10) + bit_at(n, 11)
        + bit_at(n, 12) + bit_at(n, 13) + bit_at(n, 14) + bit_at(n, 15) == ones(n));
}

/// A set whose every member is a member of another is a part of it.
pub proof fn lemma_subset_by_bits(a: u16, b: u16)
    requires
        forall|k: u16| k < 16 && #[trigger] bit_at(a, k) != 0 ==> bit_at(b, k) != 0,
    ensures
        subset(a, b),
{
    assert(bit_at(a, 0) != 0 ==> bit_at(b, 0) != 0);
    assert(bit_at(a, 1) != 0 ==> bit_at(b, 1) != 0);
    assert(bit_at(a, 2) != 0 ==> bit_at(b, 2) != 0);
    assert(bit_at(a, 3) != 0 ==> bit_at(b, 3) != 0);
    assert(bit_at(a, 4) != 0 ==> bit_at(b, 4) != 0);
    assert(bit_at(a, 5) != 0 ==> bit_at(b, 5) != 0);
    assert(bit_at(a, 6) != 0 ==> bit_at(b, 6) != 0);
    assert(bit_at(a, 7) != 0 ==> bit_at(b, 7) != 0);
    assert(bit_at(a, 8) != 0 ==> bit_at(b, 8) != 0);
    assert(bit_at(a, 9) != 0 ==> bit_at(b, 9) != 0);
    assert(bit_at(a, 10) != 0 ==> bit_at(b, 10) != 0);
    assert(bit_at(a, 11) != 0 ==> bit_at(b, 11) != 0);
    assert(bit_at(a, 12) != 0 ==> bit_at(b, 12) != 0);
    assert(bit_at(a, 13) != 0 ==> bit_at(b, 13) != 0);
    assert(bit_at(a, 14) != 0 ==> bit_at(b, 14) != 0);
    assert(bit_at(a, 15) != 0 ==> bit_at(b, 15) != 0);
    assert(a & b == a) by (bit_vector)
        requires
            (a >> 0u16) & 1 != 0 ==> (b >> 0u16) & 1 != 0,
            (a >> 1u16) & 1 != 0 ==> (b >> 1u16) & 1 != 0,
            (a >> 2u16) & 1 != 0 ==> (b >> 2u16) & 1 != 0,
            (a >> 3u16) & 1 != 0 ==> (b >> 3u16) & 1 != 0,
            (a >> 4u16) & 1 != 0 ==> (b >> 4u16) & 1 != 0,
            (a >> 5u16) & 1 != 0 ==> (b >> 5u16) & 1 != 0,
            (a >> 6u16) & 1 != 0 ==> (b >> 6u16) & 1 != 0,
            (a >> 7u16) & 1 != 0 ==> (b >> 7u16) & 1 != 0,
            (a >> 8u16) & 1 != 0 ==> (b >> 8u16) & 1 != 0,
            (a >> 9u16) & 1 != 0 ==> (b >> 9u16) & 1 != 0,
            (a >> 10u16) & 1 != 0 ==> (b >> 10u16) & 1 != 0,
            (a >> 11u16) & 1 != 0 ==> (b >> 11u16) & 1 != 0,
            (a >> 12u16) & 1 != 0 ==> (b >> 12u16) & 1 != 0,
            (a >> 13u16) & 1 != 0 ==> (b >> 13u16) & 1 != 0,
            (a >> 14u16) & 1 != 0 ==> (b >> 14u16) & 1 != 0,
            (a >> 15u16) & 1 != 0 ==> (b >> 15u16) & 1 != 0,
    ;
}

/// A member of a part of a set is a member of the set.
pub proof fn lemma_member_of_part(part: u16, whole: u16, k: u16)
    requires
        subset(part, whole) || part == whole,
        k < 16,
    ensures
        bit_at(part, k) != 0 ==> bit_at(whole, k) != 0,
        bit_at(part, k) <= 1,
{
    assert(((part >> k) & 1 != 0 ==> (whole >> k) & 1 != 0) && (part >> k) & 1 <= 1) by (bit_vector)
        requires
            part & whole == part || part == whole,
            k < 16,
    ;
}

} // verus!
