//! What holds of masks whatever their encoding. Every conversion of a mask is
//! stated over the sequence of its lanes, by the functions that these laws
//! speak of, and both encodings meet the same statements: what is proved here
//! holds of a mask in either, and of a bitmask written by one and read by the
//! other.
use vstd::prelude::*;
use crate::masks::bitmask::lemma_sum_of_bits;
use crate::masks::bitmask_spec::{bit_of, bitmask_byte, lane_bit};
use crate::masks::element::{is_boolean, MaskElement};
use crate::masks::{
    all_boolean, all_lanes, any_lane, bitmask_of_lanes, ints_of_lanes, lanes_of_bitmask,
    lanes_of_ints, lanes_splat,
};

verus! {

/// An array and the array read back from a mask made of it are equal: the
/// mask has the lanes of the first, the second the lanes of the mask.
pub proof fn lemma_array_round_trip<const LANES: usize>(
    array: [bool; LANES],
    mask: Seq<bool>,
    back: [bool; LANES],
)
    requires
        mask == array@,
        back@ == mask,
    ensures
        back == array,
{
    assert(back =~= array);
}

/// The bits of a byte that is the sum of eight bits by their weights.
proof fn lemma_bits_of_sum(b0: u8, b1: u8, b2: u8, b3: u8, b4: u8, b5: u8, b6: u8, b7: u8)
    by (bit_vector)
    requires
        b0 <= 1,
        b1 <= 1,
        b2 <= 1,
        b3 <= 1,
        b4 <= 1,
        b5 <= 1,
        b6 <= 1,
        b7 <= 1,
    ensures
        ({
            let s = (b0 + 2 * b1 + 4 * b2 + 8 * b3 + 16 * b4 + 32 * b5 + 64 * b6 + 128 * b7) as u8;
            &&& (s >> 0u8) & 1 == b0
            &&& (s >> 1u8) & 1 == b1
            &&& (s >> 2u8) & 1 == b2
            &&& (s >> 3u8) & 1 == b3
            &&& (s >> 4u8) & 1 == b4
            &&& (s >> 5u8) & 1 == b5
            &&& (s >> 6u8) & 1 == b6
            &&& (s >> 7u8) & 1 == b7
        }),
{
}

/// Bit `j` of byte `i` of the bitmask of the lanes is lane `8 * i + j`.
pub proof fn lemma_bit_of_bitmask_byte(lanes: Seq<bool>, i: int, j: u8)
    requires
        j < 8,
    ensures
        ((bitmask_byte(lanes, i) >> j) & 1 == 1) == (lane_bit(lanes, 8 * i + j) == 1),
{
    lemma_bits_of_sum(
        lane_bit(lanes, 8 * i) as u8,
        lane_bit(lanes, 8 * i + 1) as u8,
        lane_bit(lanes, 8 * i + 2) as u8,
        lane_bit(lanes, 8 * i + 3) as u8,
        lane_bit(lanes, 8 * i + 4) as u8,
        lane_bit(lanes, 8 * i + 5) as u8,
        lane_bit(lanes, 8 * i + 6) as u8,
        lane_bit(lanes, 8 * i + 7) as u8,
    );
}

/// The lanes read from the bitmask of a mask are the lanes of the mask.
pub proof fn lemma_bitmask_round_trip(lanes: Seq<bool>)
    ensures
        lanes_of_bitmask(bitmask_of_lanes(lanes), lanes.len()) == lanes,
{
    let bytes = bitmask_of_lanes(lanes);
    assert forall|k: int| 0 <= k < lanes.len() implies bit_of(bytes, k) == lanes[k] by {
        lemma_bit_of_bitmask_byte(lanes, k / 8, (k % 8) as u8);
    }
    assert(lanes_of_bitmask(bytes, lanes.len()) =~= lanes);
}

/// The bitmask of the lanes read from a bitmask is that bitmask, where it has
/// one bit per lane, in whole bytes, and no bit set past the last lane.
pub proof fn lemma_lanes_round_trip(bytes: Seq<u8>, count: nat)
    requires
        bytes.len() == (count + 7) / 8,
        forall|k: int| count <= k < 8 * bytes.len() ==> !#[trigger] bit_of(bytes, k),
    ensures
        bitmask_of_lanes(lanes_of_bitmask(bytes, count)) == bytes,
{
    let lanes = lanes_of_bitmask(bytes, count);
    assert forall|i: int| 0 <= i < bytes.len() implies bitmask_byte(lanes, i) == bytes[i] by {
        let b = bytes[i];
        lemma_sum_of_bits(b);
        assert forall|j: int| 0 <= j < 8 implies #[trigger] lane_bit(lanes, 8 * i + j) == (if (b >> (
        j as u8)) & 1 == 1 {
            1int
        } else {
            0int
        }) by {
            let k = 8 * i + j;
            assert(k / 8 == i && k % 8 == j);
            assert(bit_of(bytes, k) == ((b >> (j as u8)) & 1 == 1));
        }
        assert(lane_bit(lanes, 8 * i + 0) == (b >> 0u8) & 1);
        assert(lane_bit(lanes, 8 * i + 1) == (b >> 1u8) & 1);
        assert(lane_bit(lanes, 8 * i + 2) == (b >> 2u8) & 1);
        assert(lane_bit(lanes, 8 * i + 3) == (b >> 3u8) & 1);
        assert(lane_bit(lanes, 8 * i + 4) == (b >> 4u8) & 1);
        assert(lane_bit(lanes, 8 * i + 5) == (b >> 5u8) & 1);
        assert(lane_bit(lanes, 8 * i + 6) == (b >> 6u8) & 1);
        assert(lane_bit(lanes, 8 * i + 7) == (b >> 7u8) & 1);
    }
    assert(bitmask_of_lanes(lanes) =~= bytes);
}

/// A vector of integers that are each 0 or -1, made into a mask and back, is
/// the vector it was.
pub proof fn lemma_int_round_trip<T: MaskElement>(ints: Seq<T>)
    requires
        all_boolean(ints),
    ensures
        ints_of_lanes::<T>(lanes_of_ints(ints)) == ints,
{
    T::lemma_distinct();
    assert forall|i: int| 0 <= i < ints.len() implies T::of(ints[i] == T::of(true)) == ints[i] by {
        assert(is_boolean(ints[i]));
    }
    assert(ints_of_lanes::<T>(lanes_of_ints(ints)) =~= ints);
}

/// A mask made into a vector of integers and back has the lanes it had, and
/// the integers are each 0 or -1.
pub proof fn lemma_mask_round_trip<T: MaskElement>(lanes: Seq<bool>)
    ensures
        all_boolean(ints_of_lanes::<T>(lanes)),
        lanes_of_ints(ints_of_lanes::<T>(lanes)) == lanes,
{
    T::lemma_distinct();
    assert(lanes_of_ints(ints_of_lanes::<T>(lanes)) =~= lanes);
}

/// A mask converted from elements of type `T` to elements of type `U` and
/// back, at one number of lanes, has the lanes it had: the conversion keeps
/// the lanes, whatever integers stand for them.
pub proof fn lemma_width_round_trip<T: MaskElement, U: MaskElement>(lanes: Seq<bool>)
    ensures
        lanes_of_ints(ints_of_lanes::<U>(lanes_of_ints(ints_of_lanes::<T>(lanes)))) == lanes,
{
    lemma_mask_round_trip::<T>(lanes);
    lemma_mask_round_trip::<U>(lanes);
}

/// No lane of a mask with `false` in every lane is set.
pub proof fn lemma_splat_false_has_no_lane(count: nat)
    ensures
        !any_lane(lanes_splat(count, false)),
{
}

/// Every lane of a mask with `true` in every lane is set.
pub proof fn lemma_splat_true_has_all_lanes(count: nat)
    ensures
        all_lanes(lanes_splat(count, true)),
{
}

/// A mask of more than one lane with exactly one lane set has a lane set,
/// and not all.
pub proof fn lemma_single_lane(lanes: Seq<bool>, k: int)
    requires
        lanes.len() > 1,
        0 <= k < lanes.len(),
        forall|i: int| 0 <= i < lanes.len() ==> lanes[i] == (i == k),
    ensures
        any_lane(lanes),
        !all_lanes(lanes),
{
    assert(lanes[k]);
    let other = if k == 0 {
        1int
    } else {
        0int
    };
    assert(!lanes[other]);
}

} // verus!
