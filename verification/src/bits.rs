//! Sixty-four squares as the bits of one word: membership, cardinality and the
//! least member, with the lemmas that the rest of the crate reasons by.

use vstd::prelude::*;
use vstd::wrapping::u64_specs::{wrapping_add, wrapping_sub};

verus! {

/// Whether square `i` is a member of the set of squares that `x` encodes.
pub open spec fn bit(x: u64, i: u8) -> bool {
    i < 64 && x & (1u64 << i) != 0
}

/// The word whose members are exactly the squares below `n`.
pub open spec fn low_mask(n: nat) -> u64
    decreases n,
{
    if n == 0 {
        0
    } else {
        low_mask((n - 1) as nat) | (1u64 << ((n - 1) as u8))
    }
}

/// How many squares below `n` are members of `x`.
pub open spec fn count_below(x: u64, n: nat) -> nat
    decreases n,
{
    if n == 0 {
        0
    } else {
        count_below(x, (n - 1) as nat) + if bit(x, (n - 1) as u8) {
            1nat
        } else {
            0nat
        }
    }
}

/// The number of members of `x`.
pub open spec fn popcount(x: u64) -> nat {
    count_below(x, 64)
}

/// The least member of `x` that is at least `i`, or 64 when there is none.
pub open spec fn lowest_from(x: u64, i: nat) -> nat
    decreases 64 - i,
{
    if i >= 64 {
        64
    } else if bit(x, i as u8) {
        i
    } else {
        lowest_from(x, i + 1)
    }
}

/// The least member of `x`, or 64 when `x` is empty.
pub open spec fn lowest(x: u64) -> nat {
    lowest_from(x, 0)
}

/// `x` without its least member.
pub open spec fn without_lowest(x: u64) -> u64 {
    x & ((x - 1) as u64)
}

/// Membership in unions, intersections, symmetric differences and complements.
pub proof fn lemma_bits_of_ops(x: u64, y: u64)
    by (bit_vector)
    ensures
        forall|i: u8| #[trigger] bit(x | y, i) == (bit(x, i) || bit(y, i)),
        forall|i: u8| #[trigger] bit(x & y, i) == (bit(x, i) && bit(y, i)),
        forall|i: u8| #[trigger] bit(x ^ y, i) == (bit(x, i) != bit(y, i)),
        forall|i: u8| i < 64 ==> #[trigger] bit(!x, i) == !bit(x, i),
        x & 0xffff_ffff_ffff_ffffu64 == x,
        0u64 & x == 0,
        x & 0u64 == 0,
        x | 0u64 == x,
{
}

/// The members of a one-square word, and of the empty word.
pub proof fn lemma_bit_single(i: u8)
    by (bit_vector)
    requires
        i < 64,
    ensures
        forall|j: u8| #[trigger] bit(1u64 << i, j) == (i == j),
        forall|j: u8| !#[trigger] bit(0u64, j),
        1u64 << i != 0,
{
}

/// Exclusive or is associative and commutative, with zero as its unit and
/// every word its own inverse.
pub proof fn lemma_xor_laws(a: u64, b: u64, c: u64)
    by (bit_vector)
    ensures
        (a ^ b) ^ c == a ^ (b ^ c),
        a ^ b == b ^ a,
        a ^ a == 0,
        a ^ 0 == a,
        0 ^ a == a,
        (a ^ b) ^ b == a,
{
}

proof fn lemma_mask_step(x: u64, y: u64, m: u64, i: u8)
    by (bit_vector)
    requires
        i < 64,
        x & m == y & m,
        (x & (1u64 << i) != 0) == (y & (1u64 << i) != 0),
    ensures
        x & (m | (1u64 << i)) == y & (m | (1u64 << i)),
{
}

proof fn lemma_mask_value_step(m: u64, i: u8)
    by (bit_vector)
    requires
        i < 64,
    ensures
        m == ((1u64 << i) - 1) as u64 && i < 63 ==> m | (1u64 << i) == ((1u64 << ((i + 1) as u8))
            - 1) as u64,
        m == ((1u64 << i) - 1) as u64 && i == 63 ==> m | (1u64 << i) == 0xffff_ffff_ffff_ffffu64,
        0u64 == ((1u64 << 0u8) - 1) as u64,
{
}

/// The value of `low_mask`.
pub proof fn lemma_low_mask_value(n: nat)
    requires
        n <= 64,
    ensures
        n < 64 ==> low_mask(n) == ((1u64 << (n as u8)) - 1) as u64,
        n == 64 ==> low_mask(n) == 0xffff_ffff_ffff_ffffu64,
    decreases n,
{
    if n == 0 {
        lemma_mask_value_step(0, 0);
    } else {
        lemma_low_mask_value((n - 1) as nat);
        lemma_mask_value_step(low_mask((n - 1) as nat), (n - 1) as u8);
    }
}

/// The members of `low_mask(n)` are the squares below `n`.
pub proof fn lemma_low_mask_bits(n: nat)
    requires
        n <= 64,
    ensures
        forall|i: u8| #[trigger] bit(low_mask(n), i) == (i < n),
    decreases n,
{
    if n == 0 {
        lemma_bit_single(0);
    } else {
        lemma_low_mask_bits((n - 1) as nat);
        lemma_bits_of_ops(low_mask((n - 1) as nat), 1u64 << ((n - 1) as u8));
        lemma_bit_single((n - 1) as u8);
    }
}

proof fn lemma_agree_below(x: u64, y: u64, n: nat)
    requires
        n <= 64,
        forall|i: u8| i < n ==> bit(x, i) == bit(y, i),
    ensures
        x & low_mask(n) == y & low_mask(n),
    decreases n,
{
    if n == 0 {
        lemma_bits_of_ops(x, y);
        lemma_bits_of_ops(y, x);
    } else {
        lemma_agree_below(x, y, (n - 1) as nat);
        assert(bit(x, (n - 1) as u8) == bit(y, (n - 1) as u8));
        lemma_mask_step(x, y, low_mask((n - 1) as nat), (n - 1) as u8);
    }
}

/// Two words with the same members are equal.
pub proof fn lemma_bits_equal(x: u64, y: u64)
    requires
        forall|i: u8| i < 64 ==> bit(x, i) == bit(y, i),
    ensures
        x == y,
{
    lemma_agree_below(x, y, 64);
    lemma_low_mask_value(64);
    lemma_bits_of_ops(x, y);
    lemma_bits_of_ops(y, x);
}

/// No more than `n` squares lie below `n`.
pub proof fn lemma_count_bound(x: u64, n: nat)
    ensures
        count_below(x, n) <= n,
    decreases n,
{
    if n > 0 {
        lemma_count_bound(x, (n - 1) as nat);
    }
}

/// Adding one square that was absent adds one to the count.
pub proof fn lemma_count_insert(x: u64, y: u64, k: u8, n: nat)
    requires
        n <= 64,
        k < 64,
        !bit(x, k),
        bit(y, k),
        forall|i: u8| i < 64 && i != k ==> bit(x, i) == bit(y, i),
    ensures
        count_below(y, n) == count_below(x, n) + if k < n {
            1nat
        } else {
            0nat
        },
    decreases n,
{
    if n > 0 {
        lemma_count_insert(x, y, k, (n - 1) as nat);
        if (n - 1) as u8 != k {
            assert(bit(x, (n - 1) as u8) == bit(y, (n - 1) as u8));
        }
    }
}

/// The empty word has no members, and only the empty word has none.
pub proof fn lemma_popcount_zero(x: u64)
    ensures
        popcount(x) == 0 <==> x == 0,
        popcount(x) <= 64,
{
    lemma_count_bound(x, 64);
    lemma_bit_single(0);
    if x == 0 {
        lemma_count_none(x, 64);
    }
    if popcount(x) == 0 {
        lemma_count_none_conv(x, 64);
        lemma_bits_equal(x, 0);
    }
}

proof fn lemma_count_none(x: u64, n: nat)
    requires
        n <= 64,
        forall|i: u8| i < n ==> !bit(x, i),
    ensures
        count_below(x, n) == 0,
    decreases n,
{
    if n > 0 {
        lemma_count_none(x, (n - 1) as nat);
        assert(!bit(x, (n - 1) as u8));
    }
}

proof fn lemma_count_none_conv(x: u64, n: nat)
    requires
        n <= 64,
        count_below(x, n) == 0,
    ensures
        forall|i: u8| i < n ==> !bit(x, i),
    decreases n,
{
    if n > 0 {
        lemma_count_none_conv(x, (n - 1) as nat);
        assert forall|i: u8| i < n implies !bit(x, i) by {
            if i == (n - 1) as u8 {
            }
        }
    }
}

/// The count of `low_mask(k)`.
pub proof fn lemma_count_low_mask(k: nat)
    requires
        k <= 64,
    ensures
        popcount(low_mask(k)) == k,
{
    lemma_low_mask_bits(k);
    lemma_count_low_mask_below(k, 64);
}

proof fn lemma_count_low_mask_below(k: nat, n: nat)
    requires
        k <= 64,
        n <= 64,
        forall|i: u8| #[trigger] bit(low_mask(k), i) == (i < k),
    ensures
        count_below(low_mask(k), n) == if n <= k {
            n
        } else {
            k
        },
    decreases n,
{
    if n > 0 {
        lemma_count_low_mask_below(k, (n - 1) as nat);
        assert(bit(low_mask(k), (n - 1) as u8) == (((n - 1) as u8 as nat) < k));
    }
}

proof fn lemma_lowest_from(x: u64, i: nat)
    requires
        i <= 64,
    ensures
        i <= lowest_from(x, i) <= 64,
        lowest_from(x, i) < 64 ==> bit(x, lowest_from(x, i) as u8),
        forall|j: u8| i <= j < lowest_from(x, i) ==> !bit(x, j),
    decreases 64 - i,
{
    if i < 64 && !bit(x, i as u8) {
        lemma_lowest_from(x, i + 1);
    }
}

/// `lowest(x)` is a member of a nonempty `x`, and no smaller square is.
pub proof fn lemma_lowest(x: u64)
    ensures
        lowest(x) <= 64,
        x != 0 <==> lowest(x) < 64,
        x != 0 ==> bit(x, lowest(x) as u8),
        forall|j: u8| j < lowest(x) ==> !bit(x, j),
{
    lemma_lowest_from(x, 0);
    lemma_bit_single(0);
    if lowest(x) == 64 {
        lemma_bits_equal(x, 0);
    }
}

proof fn lemma_lowest_arith(x: u64, i: u8, m: u64)
    by (bit_vector)
    requires
        i < 64,
        m == ((1u64 << i) - 1) as u64,
        x & (1u64 << i) != 0,
        x & m == 0,
    ensures
        x != 0,
        x & ((x - 1) as u64) == x & !(1u64 << i),
        x & ((x - 1) as u64) < x,
        wrapping_sub(x & wrapping_add(!x, 1), 1) == m,
        x & wrapping_add(!x, 1) == 1u64 << i,
{
}

/// What removing the least member does: `x & (x - 1)` is `x` without
/// `lowest(x)`, a smaller word with one member fewer; and `(x & -x) - 1` is
/// the word of the squares below `lowest(x)`.
pub proof fn lemma_without_lowest(x: u64)
    requires
        x != 0,
    ensures
        lowest(x) < 64,
        without_lowest(x) == x & !(1u64 << (lowest(x) as u8)),
        without_lowest(x) < x,
        forall|i: u8| #[trigger] bit(without_lowest(x), i) == (bit(x, i) && i != lowest(x)),
        popcount(without_lowest(x)) + 1 == popcount(x),
        wrapping_sub(x & wrapping_add(!x, 1), 1) == low_mask(lowest(x)),
        x & wrapping_add(!x, 1) == 1u64 << (lowest(x) as u8),
{
    lemma_lowest(x);
    let k = lowest(x) as u8;
    let m = low_mask(k as nat);
    lemma_low_mask_value(k as nat);
    lemma_bit_single(0);
    assert(x & m == 0) by {
        lemma_agree_below(x, 0, k as nat);
        lemma_bits_of_ops(m, m);
    }
    lemma_lowest_arith(x, k, m);
    let r = without_lowest(x);
    lemma_bits_of_ops(x, !(1u64 << k));
    lemma_bits_of_ops(1u64 << k, 0);
    lemma_bit_single(k);
    assert forall|i: u8| #[trigger] bit(r, i) == (bit(x, i) && i != k) by {
        if i < 64 {
            assert(bit(!(1u64 << k), i) == !bit(1u64 << k, i));
        }
    }
    lemma_count_insert(r, x, k, 64);
}

} // verus!

verus! {

/// Membership in a union.
pub broadcast proof fn lemma_bit_or(x: u64, y: u64, i: u8)
    ensures
        #[trigger] bit(x | y, i) == (bit(x, i) || bit(y, i)),
{
    lemma_bits_of_ops(x, y);
}

/// Membership in an intersection.
pub broadcast proof fn lemma_bit_and(x: u64, y: u64, i: u8)
    ensures
        #[trigger] bit(x & y, i) == (bit(x, i) && bit(y, i)),
{
    lemma_bits_of_ops(x, y);
}

/// Membership in a symmetric difference.
pub broadcast proof fn lemma_bit_xor(x: u64, y: u64, i: u8)
    ensures
        #[trigger] bit(x ^ y, i) == (bit(x, i) != bit(y, i)),
{
    lemma_bits_of_ops(x, y);
}

/// Membership in a complement.
pub broadcast proof fn lemma_bit_not(x: u64, i: u8)
    requires
        i < 64,
    ensures
        #[trigger] bit(!x, i) == !bit(x, i),
{
    lemma_bits_of_ops(x, x);
}

/// Membership in a one-square word.
pub broadcast proof fn lemma_bit_one(i: u8, j: u8)
    requires
        i < 64,
    ensures
        #[trigger] bit(1u64 << i, j) == (i == j),
{
    lemma_bit_single(i);
}

/// The empty word has no member.
pub broadcast proof fn lemma_bit_none(j: u8)
    ensures
        !#[trigger] bit(0u64, j),
{
    lemma_bit_single(0);
}

pub broadcast group group_bits {
    lemma_bit_or,
    lemma_bit_and,
    lemma_bit_xor,
    lemma_bit_not,
    lemma_bit_one,
    lemma_bit_none,
}

} // verus!
