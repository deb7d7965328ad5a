//! The two bitmaps of an internal node, and how the ranges of slots that the
//! hash of the node goes by are read off them.

use crate::jellyfish_merkle::laws::{lemma_bitmap_bits, lemma_count_shift};
use crate::jellyfish_merkle::node_type::{
    bit, count_in, existence_bitmap, existence_flags, first_in, leaf_bitmap, leaf_flags, Slots,
};
use vstd::prelude::*;

verus! {

/// The bitmap with the bits from `start` on set, `width` bits wide.
pub open spec fn range_mask(start: u8, width: u8) -> u16 {
    ((((1u32 << (width as u32)) - 1) as u32) << (start as u32)) as u16
}

/// Whether a range of slots is one that the hash of a node goes by: its width
/// is a power of two up to sixteen, and it starts at a multiple of its width.
pub open spec fn is_range(start: u8, width: u8) -> bool {
    &&& start < 16
    &&& (width == 1 || width == 2 || width == 4 || width == 8 || width == 16)
    &&& start % width == 0
}

/// Whether exactly one bit of a bitmap is set.
pub open spec fn single_bit(y: u16) -> bool {
    y != 0 && y & ((y - 1) as u16) == 0
}

/// Given a range of slots, returns the bitmaps of that range: those bits of
/// the bitmaps of the node that lie in the range.
pub fn range_bitmaps(start: u8, width: u8, bitmaps: (u16, u16)) -> (r: (u16, u16))
    requires
        is_range(start, width),
    ensures
        r.0 == bitmaps.0 & range_mask(start, width),
        r.1 == bitmaps.1 & range_mask(start, width),
        start + width <= 16,
{
    assert(start + width <= 16 && (1u32 << (width as u32)) >= 1 && ((((1u32 << (width as u32)) - 1)
        as u32) << (start as u32)) < 0x10000u32) by (bit_vector)
        requires
            start < 16,
            width == 1 || width == 2 || width == 4 || width == 8 || width == 16,
            start % width == 0,
    ;
    let mask = (((1u32 << (width as u32)) - 1) << (start as u32)) as u16;
    (bitmaps.0 & mask, bitmaps.1 & mask)
}

/// The number of set bits of a bitmap from the bit `start` on, `width` bits
/// wide.
pub open spec fn count_bits(x: u16, start: int, width: int) -> nat
    decreases width,
{
    if width <= 0 {
        0
    } else {
        count_bits(x, start, width - 1) + if bit(x, start + width - 1) {
            1nat
        } else {
            0nat
        }
    }
}

/// The set bits of two adjacent ranges are those of the one and those of the
/// other.
pub proof fn lemma_count_bits_split(x: u16, start: int, a: int, b: int)
    requires
        0 <= a,
        0 <= b,
    ensures
        count_bits(x, start, a + b) == count_bits(x, start, a) + count_bits(x, start + a, b),
    decreases b,
{
    if b > 0 {
        lemma_count_bits_split(x, start, a, b - 1);
    }
}

/// Bitmaps with the same bits in a range have as many set bits there; a
/// range without a set bit has none.
pub proof fn lemma_count_bits_same(x: u16, y: u16, start: int, width: int)
    requires
        forall|i: int| start <= i < start + width ==> bit(x, i) == bit(y, i),
    ensures
        count_bits(x, start, width) == count_bits(y, start, width),
    decreases width,
{
    if width > 0 {
        lemma_count_bits_same(x, y, start, width - 1);
    }
}

/// A range of which no bit is set has no set bit.
pub proof fn lemma_count_bits_none(x: u16, start: int, width: int)
    requires
        forall|i: int| start <= i < start + width ==> !bit(x, i),
    ensures
        count_bits(x, start, width) == 0,
    decreases width,
{
    if width > 0 {
        lemma_count_bits_none(x, start, width - 1);
    }
}

/// The children of a range of slots are the set bits of the bitmap of
/// children in that range.
pub proof fn lemma_count_by_bits(slots: Slots, start: int, width: int)
    requires
        slots.len() == 16,
        0 <= start,
        0 <= width,
        start + width <= 16,
    ensures
        count_in(slots, start, width) == count_bits(existence_bitmap(slots), start, width),
    decreases width,
{
    if width > 0 {
        lemma_count_by_bits(slots, start, width - 1);
        lemma_bitmap_bits(existence_flags(slots), 16, start + width - 1);
    }
}

/// A bitmap has no set bit where it is zero, and one set bit where it is a
/// power of two.
pub proof fn lemma_popcount(y: u16)
    ensures
        count_bits(y, 0, 16) == 0 <==> y == 0,
        count_bits(y, 0, 16) == 1 <==> single_bit(y),
{
    reveal_with_fuel(count_bits, 17);
    assert(((y >> 0) & 1) <= 1 && ((y >> 1) & 1) <= 1 && ((y >> 2) & 1) <= 1 && ((y >> 3) & 1) <= 1 && ((y >> 4) & 1) <= 1 && ((y >> 5) & 1) <= 1 && ((y >> 6) & 1) <= 1 && ((y >> 7) & 1) <= 1 && ((y >> 8) & 1) <= 1 && ((y >> 9) & 1) <= 1 && ((y >> 10) & 1) <= 1 && ((y >> 11) & 1) <= 1 && ((y >> 12) & 1) <= 1 && ((y >> 13) & 1) <= 1 && ((y >> 14) & 1) <= 1 && ((y >> 15) & 1) <= 1) by (bit_vector);
    assert(((((y >> 0) & 1) + ((y >> 1) & 1) + ((y >> 2) & 1) + ((y >> 3) & 1) + ((y >> 4) & 1) + ((y >> 5) & 1) + ((y >> 6) & 1) + ((y >> 7) & 1) + ((y >> 8) & 1) + ((y >> 9) & 1) + ((y >> 10) & 1) + ((y >> 11) & 1) + ((y >> 12) & 1) + ((y >> 13) & 1) + ((y >> 14) & 1) + ((y >> 15) & 1)) == 0) <==> y == 0) by (bit_vector);
    if y != 0 {
        let z = (y - 1) as u16;
        assert(((((y >> 0) & 1) + ((y >> 1) & 1) + ((y >> 2) & 1) + ((y >> 3) & 1) + ((y >> 4) & 1) + ((y >> 5) & 1) + ((y >> 6) & 1) + ((y >> 7) & 1) + ((y >> 8) & 1) + ((y >> 9) & 1) + ((y >> 10) & 1) + ((y >> 11) & 1) + ((y >> 12) & 1) + ((y >> 13) & 1) + ((y >> 14) & 1) + ((y >> 15) & 1)) == 1) <==> (y & z == 0)) by (bit_vector)
            requires
                y != 0,
                z == (y - 1) as u16,
        ;
    }
}

/// What the bitmaps of a range say of the slots of the range. The bitmap of
/// children is zero where the range has no child, and a single bit where it
/// has one child. Where it has one child, the bitmap of leaves is not zero
/// if and only if that child is a leaf.
pub proof fn lemma_range_bitmaps(slots: Slots, start: u8, width: u8)
    requires
        slots.len() == 16,
        is_range(start, width),
    ensures
        (existence_bitmap(slots) & range_mask(start, width) == 0) <==> count_in(
            slots,
            start as int,
            width as int,
        ) == 0,
        single_bit(existence_bitmap(slots) & range_mask(start, width)) <==> count_in(
            slots,
            start as int,
            width as int,
        ) == 1,
        count_in(slots, start as int, width as int) == 1 ==> ((leaf_bitmap(slots) & range_mask(
            start,
            width,
        ) != 0) <==> slots[first_in(slots, start as int, width as int)]->Some_0.is_leaf()),
{
    let e = existence_bitmap(slots);
    let l = leaf_bitmap(slots);
    let mask = range_mask(start, width);
    let s = start as int;
    let w = width as int;
    assert(start + width <= 16) by (bit_vector)
        requires
            start < 16,
            width == 1 || width == 2 || width == 4 || width == 8 || width == 16,
            start % width == 0,
    ;
    // the bits of a masked bitmap
    assert forall|x: u16, i: int| 0 <= i < 16 implies #[trigger] bit(x & mask, i) == (s <= i < s + w
        && bit(x, i)) by {
        let k = i as u16;
        assert(((((x & (((((1u32 << (width as u32)) - 1) as u32) << (start as u32)) as u16)) >> k) & 1)
            == 1) == ((start as u16) <= k && k < (start as u16) + (width as u16) && ((x >> k) & 1)
            == 1)) by (bit_vector)
            requires
                k < 16,
                start < 16,
                width == 1 || width == 2 || width == 4 || width == 8 || width == 16,
                start % width == 0,
        ;
    }
    // the set bits of the masked bitmap of children are the children of the range
    let em = e & mask;
    lemma_count_bits_split(em, 0, s, 16 - s);
    lemma_count_bits_split(em, s, w, 16 - s - w);
    lemma_count_bits_none(em, 0, s);
    lemma_count_bits_none(em, s + w, 16 - s - w);
    lemma_count_bits_same(em, e, s, w);
    lemma_count_by_bits(slots, s, w);
    lemma_popcount(em);
    assert(count_bits(em, 0, 16) == count_in(slots, s, w));
    if count_in(slots, s, w) == 1 {
        lemma_only_child(slots, s, w);
        let f = first_in(slots, s, w);
        let lm = l & mask;
        lemma_bitmap_bits(leaf_flags(slots), 16, f);
        if slots[f]->Some_0.is_leaf() {
            assert(bit(lm, f));
            let k = f as u16;
            assert(lm != 0) by (bit_vector)
                requires
                    (lm >> k) & 1 == 1,
            ;
        }
        if lm != 0 {
            let y = lm;
            assert((y >> 0) & 1 == 1 || (y >> 1) & 1 == 1 || (y >> 2) & 1 == 1 || (y >> 3) & 1 == 1 || (y >> 4) & 1 == 1 || (y >> 5) & 1 == 1 || (y >> 6) & 1 == 1 || (y >> 7) & 1 == 1 || (y >> 8) & 1 == 1 || (y >> 9) & 1 == 1 || (y >> 10) & 1 == 1 || (y >> 11) & 1 == 1 || (y >> 12) & 1 == 1 || (y >> 13) & 1 == 1 || (y >> 14) & 1 == 1 || (y >> 15) & 1 == 1) by (bit_vector)
                requires
                    y != 0,
            ;
            let i = if (y >> 0) & 1 == 1 {
                0int
            } else if (y >> 1) & 1 == 1 {
                1int
            } else if (y >> 2) & 1 == 1 {
                2int
            } else if (y >> 3) & 1 == 1 {
                3int
            } else if (y >> 4) & 1 == 1 {
                4int
            } else if (y >> 5) & 1 == 1 {
                5int
            } else if (y >> 6) & 1 == 1 {
                6int
            } else if (y >> 7) & 1 == 1 {
                7int
            } else if (y >> 8) & 1 == 1 {
                8int
            } else if (y >> 9) & 1 == 1 {
                9int
            } else if (y >> 10) & 1 == 1 {
                10int
            } else if (y >> 11) & 1 == 1 {
                11int
            } else if (y >> 12) & 1 == 1 {
                12int
            } else if (y >> 13) & 1 == 1 {
                13int
            } else if (y >> 14) & 1 == 1 {
                14int
            } else {
                15int
            };
            assert(bit(lm, i));
            lemma_bitmap_bits(leaf_flags(slots), 16, i);
            assert(slots[i] is Some);
        }
    }
}

/// A range with one child has it at its first child's place, and nowhere
/// else.
pub proof fn lemma_only_child(slots: Slots, start: int, width: int)
    requires
        count_in(slots, start, width) == 1,
        0 <= width,
    ensures
        start <= first_in(slots, start, width) < start + width,
        slots[first_in(slots, start, width)] is Some,
        forall|i: int|
            start <= i < start + width && (#[trigger] slots[i]) is Some ==> i == first_in(
                slots,
                start,
                width,
            ),
    decreases width,
{
    lemma_count_shift(slots, start, width);
    if slots[start] is Some {
        lemma_no_child(slots, start + 1, width - 1);
    } else {
        lemma_only_child(slots, start + 1, width - 1);
    }
}

/// A range without a child has a child at no place.
pub proof fn lemma_no_child(slots: Slots, start: int, width: int)
    requires
        count_in(slots, start, width) == 0,
        0 <= width,
    ensures
        forall|i: int| start <= i < start + width ==> (#[trigger] slots[i]) is None,
    decreases width,
{
    if width > 0 {
        lemma_no_child(slots, start, width - 1);
    }
}

} // verus!
