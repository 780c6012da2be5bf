//! Why the sliding-attack tables are right: every occupancy of the
//! relevant squares is selected by an index, so that looking an occupancy
//! up gives what the slider attacks under it.

use crate::bits::{
    bit, group_bits, lemma_bits_equal, lemma_low_mask_bits, lemma_low_mask_value,
    lemma_popcount_zero, lemma_without_lowest, low_mask, lowest, popcount, without_lowest,
};
use crate::geometry::{relevance_mask, slider_attacks};
use crate::precalculator::{deposit_acc, occupancy_of, slider_computed, slot_of};
use crate::tables::SlidingTable;
use vstd::prelude::*;

verus! {

/// The index that selects the members of `s` among the members of `mask`:
/// bit `count` is set when the least member of `mask` is a member of `s`,
/// bit `count + 1` when the next is, and so on.
pub open spec fn index_of(s: u64, mask: u64, count: nat) -> u64
    decreases mask,
{
    if mask == 0 || count >= 64 {
        0
    } else {
        proof {
            lemma_without_lowest(mask);
        }
        (if bit(s, lowest(mask) as u8) {
            1u64 << (count as u8)
        } else {
            0u64
        }) | index_of(s, without_lowest(mask), count + 1)
    }
}

/// The bits of an index lie from `count` on, one for each member of the
/// mask.
proof fn lemma_index_bits(s: u64, mask: u64, count: nat)
    requires
        count + popcount(mask) <= 64,
    ensures
        forall|c: u8|
            #[trigger] bit(index_of(s, mask, count), c) ==> count <= c < count + popcount(mask),
    decreases mask,
{
    broadcast use group_bits;

    lemma_popcount_zero(mask);
    if mask != 0 {
        lemma_without_lowest(mask);
        lemma_index_bits(s, without_lowest(mask), count + 1);
        let rest = index_of(s, without_lowest(mask), count + 1);
        assert forall|c: u8| #[trigger]
            bit(index_of(s, mask, count), c) implies count <= c < count + popcount(mask) by {
            if bit(rest, c) {
            }
        }
    }
}

/// What an index selects: the members of the mask whose bit is set in it.
proof fn lemma_deposit(acc: u64, s: u64, index: u64, mask: u64, count: nat, bits: nat)
    requires
        count + popcount(mask) == bits,
        bits <= 64,
        forall|c: u8| count <= c < 64 ==> bit(index, c) == bit(index_of(s, mask, count), c),
    ensures
        forall|i: u8|
            i < 64 ==> #[trigger] bit(deposit_acc(acc, index, mask, count, bits), i) == (bit(acc, i)
                || (bit(s, i) && bit(mask, i))),
    decreases mask,
{
    broadcast use group_bits;

    lemma_popcount_zero(mask);
    if mask != 0 {
        lemma_without_lowest(mask);
        let k = lowest(mask) as u8;
        let rest = without_lowest(mask);
        let chosen = index & (1u64 << (count as u64)) != 0;
        let next = if chosen {
            acc | (1u64 << (lowest(mask) as u64))
        } else {
            acc
        };
        lemma_index_bits(s, rest, count + 1);
        assert(bit(index, count as u8) == bit(index_of(s, mask, count), count as u8));
        assert(!bit(index_of(s, rest, count + 1), count as u8));
        assert(chosen == bit(s, k));
        assert forall|c: u8| count + 1 <= c < 64 implies bit(index, c) == bit(
            index_of(s, rest, count + 1),
            c,
        ) by {
            assert(bit(index, c) == bit(index_of(s, mask, count), c));
        }
        lemma_deposit(next, s, index, rest, count + 1, bits);
        assert forall|i: u8| i < 64 implies #[trigger] bit(
            deposit_acc(acc, index, mask, count, bits),
            i,
        ) == (bit(acc, i) || (bit(s, i) && bit(mask, i))) by {
            assert(bit(rest, i) == (bit(mask, i) && i != k));
            assert(bit(deposit_acc(next, index, rest, count + 1, bits), i) == (bit(next, i) || (bit(
                s,
                i,
            ) && bit(rest, i))));
        }
    }
}

proof fn lemma_masked_small(x: u64, n: u8)
    by (bit_vector)
    requires
        n < 64,
    ensures
        x & (((1u64 << n) - 1) as u64) < (1u64 << n),
{
}

/// A word whose members are all below `n` is below `2^n`.
proof fn lemma_small(x: u64, n: u8)
    requires
        n < 64,
        forall|c: u8| bit(x, c) ==> c < n,
    ensures
        x < (1u64 << n),
{
    broadcast use group_bits;

    lemma_low_mask_bits(n as nat);
    lemma_low_mask_value(n as nat);
    assert forall|c: u8| c < 64 implies bit(x & low_mask(n as nat), c) == bit(x, c) by {}
    lemma_bits_equal(x & low_mask(n as nat), x);
    lemma_masked_small(x, n);
}

/// Every set of relevant squares is selected by an index: the indices
/// below `2^bits` select all the subsets of a mask of `bits` squares.
pub proof fn lemma_occupancy_reached(s: u64, mask: u64, bits: u8)
    requires
        popcount(mask) == bits,
        bits < 64,
        s & !mask == 0,
    ensures
        index_of(s, mask, 0) < (1u64 << bits),
        occupancy_of(index_of(s, mask, 0), bits as nat, mask) == s,
{
    broadcast use group_bits;

    let index = index_of(s, mask, 0);
    lemma_index_bits(s, mask, 0);
    lemma_small(index, bits);
    lemma_deposit(0, s, index, mask, 0, bits as nat);
    assert forall|i: u8| i < 64 implies bit(occupancy_of(index, bits as nat, mask), i) == bit(
        s,
        i,
    ) by {
        assert(!bit(s & !mask, i));
    }
    lemma_bits_equal(occupancy_of(index, bits as nat, mask), s);
}

/// Looking up an occupancy of relevant squares in a computed table gives
/// what the slider attacks under that occupancy, found by walking its
/// rays: for every square and every subset of its relevance mask.
pub proof fn lemma_lookup_is_ray_walk(piece: u8, t: SlidingTable, square: int, occupancy: u64)
    requires
        slider_computed(piece, t),
        0 <= square < 64,
        occupancy & !relevance_mask(piece, square) == 0,
    ensures
        t.lookup(square, occupancy) == slider_attacks(piece, square, occupancy),
{
    broadcast use group_bits;

    let mask = relevance_mask(piece, square);
    let bits = t.bits[square];
    assert(t.masks[square] == mask);
    assert(bits as nat == popcount(mask));
    lemma_occupancy_reached(occupancy, mask, bits);
    let index = index_of(occupancy, mask, 0);
    assert(occupancy_of(index, t.bits[square] as nat, relevance_mask(piece, square)) == occupancy);
    assert forall|i: u8| i < 64 implies bit(occupancy & mask, i) == bit(occupancy, i) by {
        assert(!bit(occupancy & !mask, i));
    }
    lemma_bits_equal(occupancy & mask, occupancy);
    assert(t.attacks[square][slot_of(occupancy, t.magics[square], bits) as int] == slider_attacks(
        piece,
        square,
        occupancy,
    ));
}

} // verus!
