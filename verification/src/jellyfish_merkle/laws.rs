//! What holds of every internal node.

use crate::bytes::{le_u16, lemma_le_u16_roundtrip};
use crate::hash::sparse_merkle_placeholder;
use crate::jellyfish_merkle::nibble::Nibble;
use crate::jellyfish_merkle::node_type::{
    bit, bitmap_of, child_decoding, child_encoding, children_decoding, children_encoding,
    count_in, counted, existence_bitmap, existence_flags, first_in, internal_decoding,
    internal_encoding, internal_hash, leaf_bitmap, leaf_flags, merkle, nibbles_distinct,
    resolves, slots_of, slots_wf, Child, ChildView, NodeDecodeError, NodeType, Slots,
};
use crate::jellyfish_merkle::varint::{
    lemma_varint_len, lemma_varint_roundtrip_from, varint, varint_read,
};
use vstd::prelude::*;

verus! {

/// Whether two lists of slots hold children at the same places, with the
/// same hashes, and leaves at the same places.
pub open spec fn same_shape(a: Slots, b: Slots) -> bool {
    &&& a.len() == 16
    &&& b.len() == 16
    &&& forall|i: int|
        0 <= i < 16 ==> ((#[trigger] a[i]) is Some <==> b[i] is Some) && (a[i] is Some
            ==> a[i]->Some_0.hash == b[i]->Some_0.hash && a[i]->Some_0.is_leaf()
            == b[i]->Some_0.is_leaf())
}

/// Slots of the same shape have the same children in every range.
pub proof fn lemma_same_shape_range(a: Slots, b: Slots, start: int, width: int)
    requires
        same_shape(a, b),
        0 <= start,
        0 <= width,
        start + width <= 16,
    ensures
        count_in(a, start, width) == count_in(b, start, width),
        first_in(a, start, width) == first_in(b, start, width),
        start <= first_in(a, start, width) <= start + width,
        count_in(a, start, width) > 0 ==> first_in(a, start, width) < start + width && a[first_in(
            a,
            start,
            width,
        )] is Some,
    decreases width,
{
    if width > 0 {
        lemma_same_shape_range(a, b, start, width - 1);
        lemma_same_shape_range(a, b, start + 1, width - 1);
        lemma_count_shift(a, start, width);
        lemma_count_shift(b, start, width);
    }
}

/// The children of a range are its first slot's and those of the rest.
pub proof fn lemma_count_shift(slots: Slots, start: int, width: int)
    requires
        width >= 1,
    ensures
        count_in(slots, start, width) == count_in(slots, start + 1, width - 1) + if slots[start]
            is Some {
            1nat
        } else {
            0nat
        },
    decreases width,
{
    if width > 1 {
        lemma_count_shift(slots, start, width - 1);
        assert(count_in(slots, start + 1, width - 1) == count_in(slots, start + 1, width - 2)
            + if slots[start + width - 1] is Some {
            1nat
        } else {
            0nat
        });
    } else {
        assert(count_in(slots, start + 1, 0) == 0);
        assert(count_in(slots, start, 0) == 0);
    }
}

/// The hash of a subtree is that of the shape of its slots.
pub proof fn lemma_merkle_by_shape(a: Slots, b: Slots, start: int, width: int)
    requires
        same_shape(a, b),
        0 <= start,
        1 <= width,
        start + width <= 16,
    ensures
        merkle(a, start, width) == merkle(b, start, width),
    decreases width,
{
    lemma_same_shape_range(a, b, start, width);
    if count_in(a, start, width) == 0 {
    } else if width <= 1 || resolves(a, start, width) {
    } else {
        lemma_merkle_by_shape(a, b, start, width / 2);
        lemma_merkle_by_shape(a, b, start + width / 2, width / 2);
    }
}

/// The hash of an internal node depends on nothing but the hash of the
/// child at each nibble and on which children are leaves: nodes with the
/// same hashes and leaves at the same nibbles have the same hash, whatever
/// the versions and leaf counts of their children.
pub proof fn lemma_hash_by_shape(a: Slots, b: Slots)
    requires
        same_shape(a, b),
    ensures
        merkle(a, 0, 16) == merkle(b, 0, 16),
{
    lemma_merkle_by_shape(a, b, 0, 16);
}

/// Whether two lists hold the same children at the same nibbles, in
/// whatever order.
pub open spec fn same_children(a: Seq<(Nibble, Child)>, b: Seq<(Nibble, Child)>) -> bool {
    &&& forall|i: int|
        0 <= i < a.len() ==> exists|j: int|
            0 <= j < b.len() && (#[trigger] b[j]).0@ == (#[trigger] a[i]).0@ && b[j].1@ == a[i].1@
    &&& forall|j: int|
        0 <= j < b.len() ==> exists|i: int|
            0 <= i < a.len() && (#[trigger] a[i]).0@ == (#[trigger] b[j]).0@ && a[i].1@ == b[j].1@
}

/// The order in which the children of a node are listed does not matter:
/// lists that hold the same children at the same nibbles fill the same
/// slots, and so make nodes with the same hash.
pub proof fn lemma_permutation(a: Seq<(Nibble, Child)>, b: Seq<(Nibble, Child)>)
    requires
        nibbles_distinct(a),
        nibbles_distinct(b),
        same_children(a, b),
    ensures
        slots_of(a) == slots_of(b),
        merkle(slots_of(a), 0, 16) == merkle(slots_of(b), 0, 16),
{
    assert(slots_of(a) =~= slots_of(b)) by {
        assert forall|n: int| 0 <= n < 16 implies slots_of(a)[n] == slots_of(b)[n] by {
            let in_a = exists|k: int| 0 <= k < a.len() && (#[trigger] a[k]).0@ == n;
            let in_b = exists|k: int| 0 <= k < b.len() && (#[trigger] b[k]).0@ == n;
            if in_a {
                let i = choose|k: int| 0 <= k < a.len() && (#[trigger] a[k]).0@ == n;
                let j = choose|j: int|
                    0 <= j < b.len() && (#[trigger] b[j]).0@ == (#[trigger] a[i]).0@ && b[j].1@
                        == a[i].1@;
                assert(b[j].0@ == n);
                let j2 = choose|k: int| 0 <= k < b.len() && (#[trigger] b[k]).0@ == n;
                if j != j2 {
                    if j < j2 {
                        assert(b[j].0@ != b[j2].0@);
                    } else {
                        assert(b[j2].0@ != b[j].0@);
                    }
                }
            }
            if in_b {
                let j = choose|k: int| 0 <= k < b.len() && (#[trigger] b[k]).0@ == n;
                let i = choose|i: int|
                    0 <= i < a.len() && (#[trigger] a[i]).0@ == (#[trigger] b[j]).0@ && a[i].1@
                        == b[j].1@;
                assert(a[i].0@ == n);
            }
        }
    }
}

/// The hash of a node with two children, at the nibbles 0 and 15, is the
/// hash of its two halves. The half of a leaf is the leaf itself; the half of
/// an internal child stands three levels above the child, each time beside
/// the placeholder.
#[verifier::rlimit(40)]
pub proof fn lemma_two_children(slots: Slots)
    requires
        slots.len() == 16,
        slots[0] is Some,
        slots[15] is Some,
        forall|i: int| 1 <= i < 15 ==> (#[trigger] slots[i]) is None,
    ensures
        merkle(slots, 0, 16) == internal_hash(
            if slots[0]->Some_0.is_leaf() {
                slots[0]->Some_0.hash
            } else {
                internal_hash(
                    internal_hash(
                        internal_hash(slots[0]->Some_0.hash, sparse_merkle_placeholder()),
                        sparse_merkle_placeholder(),
                    ),
                    sparse_merkle_placeholder(),
                )
            },
            if slots[15]->Some_0.is_leaf() {
                slots[15]->Some_0.hash
            } else {
                internal_hash(
                    sparse_merkle_placeholder(),
                    internal_hash(
                        sparse_merkle_placeholder(),
                        internal_hash(sparse_merkle_placeholder(), slots[15]->Some_0.hash),
                    ),
                )
            },
        ),
{
    reveal_with_fuel(count_in, 17);
    reveal_with_fuel(first_in, 17);
    let p = sparse_merkle_placeholder();
    let h0 = slots[0]->Some_0.hash;
    let h15 = slots[15]->Some_0.hash;
    assert(count_in(slots, 0, 16) == 2);
    assert(count_in(slots, 0, 8) == 1 && first_in(slots, 0, 8) == 0);
    assert(count_in(slots, 8, 8) == 1 && first_in(slots, 8, 8) == 15);
    assert(merkle(slots, 0, 16) == internal_hash(merkle(slots, 0, 8), merkle(slots, 8, 8)));
    if !slots[0]->Some_0.is_leaf() {
        assert(count_in(slots, 0, 4) == 1 && first_in(slots, 0, 4) == 0);
        assert(count_in(slots, 0, 2) == 1 && first_in(slots, 0, 2) == 0);
        assert(count_in(slots, 0, 1) == 1 && first_in(slots, 0, 1) == 0);
        assert(count_in(slots, 1, 1) == 0);
        assert(count_in(slots, 2, 2) == 0);
        assert(count_in(slots, 4, 4) == 0);
        assert(merkle(slots, 0, 1) == h0);
        assert(merkle(slots, 1, 1) == p);
        assert(merkle(slots, 0, 2) == internal_hash(h0, p));
        assert(merkle(slots, 2, 2) == p);
        assert(merkle(slots, 0, 4) == internal_hash(internal_hash(h0, p), p));
        assert(merkle(slots, 4, 4) == p);
    }
    if !slots[15]->Some_0.is_leaf() {
        assert(count_in(slots, 12, 4) == 1 && first_in(slots, 12, 4) == 15);
        assert(count_in(slots, 14, 2) == 1 && first_in(slots, 14, 2) == 15);
        assert(count_in(slots, 15, 1) == 1 && first_in(slots, 15, 1) == 15);
        assert(count_in(slots, 14, 1) == 0);
        assert(count_in(slots, 12, 2) == 0);
        assert(count_in(slots, 8, 4) == 0);
        assert(merkle(slots, 15, 1) == h15);
        assert(merkle(slots, 14, 1) == p);
        assert(merkle(slots, 14, 2) == internal_hash(p, h15));
        assert(merkle(slots, 12, 2) == p);
        assert(merkle(slots, 12, 4) == internal_hash(p, internal_hash(p, h15)));
        assert(merkle(slots, 8, 4) == p);
    }
}

/// A child as it comes back from its bytes. Without leaf counts, every
/// internal child comes back with its number of leaves unknown; with them,
/// one that has no leaf does.
pub open spec fn normalized_child(child: ChildView, persist_leaf_counts: bool) -> ChildView {
    ChildView {
        node_type: match child.node_type {
            NodeType::Leaf => NodeType::Leaf,
            NodeType::InternalLegacy => NodeType::InternalLegacy,
            NodeType::Internal { leaf_count } => if persist_leaf_counts {
                counted(leaf_count as u64)
            } else {
                NodeType::InternalLegacy
            },
        },
        ..child
    }
}

/// The slots of a node as they come back from its bytes.
pub open spec fn normalized(slots: Slots, persist_leaf_counts: bool) -> Slots {
    Seq::new(
        16,
        |i: int|
            match slots[i] {
                Some(child) => Some(normalized_child(child, persist_leaf_counts)),
                None => None,
            },
    )
}

/// Whether the hash of every child is as long as a hash is.
pub open spec fn hashes_wf(slots: Slots) -> bool {
    forall|i: int| 0 <= i < 16 && (#[trigger] slots[i]) is Some ==> slots[i]->Some_0.hash.len() == 32
}

/// The bits of a bitmap are the flags that it was made of.
pub proof fn lemma_bitmap_bits(flags: Seq<bool>, n: int, i: int)
    requires
        0 <= n <= 16,
        0 <= i < 16,
    ensures
        bit(bitmap_of(flags, n), i) == (i < n && flags[i]),
    decreases n,
{
    let i16 = i as u16;
    if n <= 0 {
        assert((0u16 >> i16) & 1 != 1) by (bit_vector);
    } else {
        lemma_bitmap_bits(flags, n - 1, i);
        let a = bitmap_of(flags, n - 1);
        let k = (n - 1) as u16;
        if flags[n - 1] {
            assert((((a | (1u16 << k)) >> i16) & 1 == 1) == (((a >> i16) & 1 == 1) || i16 == k))
                by (bit_vector)
                requires
                    i16 < 16,
                    k < 16,
            ;
        }
    }
}

/// The bitmap of flags that are set only where other flags are set is a
/// subset of the bitmap of those.
pub proof fn lemma_bitmap_subset(outer: Seq<bool>, inner: Seq<bool>, n: int)
    requires
        0 <= n <= 16,
        forall|i: int| 0 <= i < n ==> (#[trigger] inner[i] ==> outer[i]),
    ensures
        bitmap_of(outer, n) & bitmap_of(inner, n) == bitmap_of(inner, n),
    decreases n,
{
    if n <= 0 {
        assert(0u16 & 0u16 == 0u16) by (bit_vector);
    } else {
        lemma_bitmap_subset(outer, inner, n - 1);
        let a = bitmap_of(outer, n - 1);
        let b = bitmap_of(inner, n - 1);
        let x = 1u16 << ((n - 1) as u16);
        assert(inner[n - 1] ==> outer[n - 1]);
        assert((a | x) & (b | x) == (b | x) && (a | x) & b == b) by (bit_vector)
            requires
                a & b == b,
        ;
    }
}

/// Reading the bytes of a child gives the child as it comes back, whatever
/// stands before and behind the bytes.
#[verifier::rlimit(40)]
pub proof fn lemma_child_roundtrip(
    head: Seq<u8>,
    child: ChildView,
    tail: Seq<u8>,
    persist_leaf_counts: bool,
)
    requires
        child.hash.len() == 32,
    ensures
        child_decoding(
            head + child_encoding(child, persist_leaf_counts) + tail,
            head.len() as int,
            child.is_leaf(),
            persist_leaf_counts,
        ) == Ok::<(ChildView, int), NodeDecodeError>(
            (
                normalized_child(child, persist_leaf_counts),
                (head.len() + child_encoding(child, persist_leaf_counts).len()) as int,
            ),
        ),
{
    let data = head + child_encoding(child, persist_leaf_counts) + tail;
    let pos = head.len() as int;
    let counts = match child.node_type {
        NodeType::Leaf => Seq::<u8>::empty(),
        NodeType::InternalLegacy => if persist_leaf_counts {
            varint(0)
        } else {
            Seq::<u8>::empty()
        },
        NodeType::Internal { leaf_count } => if persist_leaf_counts {
            varint(leaf_count as u64)
        } else {
            Seq::<u8>::empty()
        },
    };
    lemma_varint_len(child.version, 0);
    lemma_varint_roundtrip_from(head, child.version, child.hash + counts + tail, 0);
    assert(head + varint(child.version) + (child.hash + counts + tail) =~= data);
    let hash_at = pos + varint(child.version).len();
    assert(varint_read(data, pos) == Some((child.version, hash_at)));
    assert(data.subrange(hash_at, hash_at + 32) =~= child.hash);
    let head2 = head + varint(child.version) + child.hash;
    match child.node_type {
        NodeType::Leaf => {
            assert(child_encoding(child, persist_leaf_counts) =~= varint(child.version) + child.hash);
        },
        NodeType::InternalLegacy => {
            if persist_leaf_counts {
                lemma_varint_len(0, 0);
                lemma_varint_roundtrip_from(head2, 0, tail, 0);
                assert(head2 + varint(0) + tail =~= data);
            } else {
                assert(child_encoding(child, persist_leaf_counts) =~= varint(child.version)
                    + child.hash);
            }
        },
        NodeType::Internal { leaf_count } => {
            if persist_leaf_counts {
                lemma_varint_len(leaf_count as u64, 0);
                lemma_varint_roundtrip_from(head2, leaf_count as u64, tail, 0);
                assert(head2 + varint(leaf_count as u64) + tail =~= data);
            } else {
                assert(child_encoding(child, persist_leaf_counts) =~= varint(child.version)
                    + child.hash);
            }
        },
    }
}

/// Reading the bytes of the children from the slot `i` on gives the slots as
/// they come back, whatever stands before and behind the bytes.
#[verifier::rlimit(40)]
pub proof fn lemma_children_roundtrip(
    head: Seq<u8>,
    slots: Slots,
    tail: Seq<u8>,
    persist_leaf_counts: bool,
    i: int,
)
    requires
        slots.len() == 16,
        hashes_wf(slots),
        0 <= i <= 16,
    ensures
        children_decoding(
            head + children_encoding(slots, i, persist_leaf_counts) + tail,
            head.len() as int,
            existence_bitmap(slots),
            leaf_bitmap(slots),
            persist_leaf_counts,
            i,
        ) == Ok::<Slots, NodeDecodeError>(normalized(slots, persist_leaf_counts).subrange(i, 16)),
    decreases 16 - i,
{
    let data = head + children_encoding(slots, i, persist_leaf_counts) + tail;
    let expected = normalized(slots, persist_leaf_counts).subrange(i, 16);
    if i >= 16 {
        assert(expected =~= Seq::<Option<ChildView>>::empty());
    } else {
        lemma_bitmap_bits(existence_flags(slots), 16, i);
        lemma_bitmap_bits(leaf_flags(slots), 16, i);
        let rest = children_encoding(slots, i + 1, persist_leaf_counts);
        let later = normalized(slots, persist_leaf_counts).subrange(i + 1, 16);
        match slots[i] {
            None => {
                assert(children_encoding(slots, i, persist_leaf_counts) =~= rest);
                lemma_children_roundtrip(head, slots, tail, persist_leaf_counts, i + 1);
                assert(expected =~= seq![None::<ChildView>] + later);
            },
            Some(child) => {
                let bytes = child_encoding(child, persist_leaf_counts);
                lemma_child_roundtrip(head, child, rest + tail, persist_leaf_counts);
                assert(head + bytes + (rest + tail) =~= data);
                lemma_children_roundtrip(head + bytes, slots, tail, persist_leaf_counts, i + 1);
                assert((head + bytes) + rest + tail =~= data);
                assert(expected =~= seq![Some(normalized_child(child, persist_leaf_counts))]
                    + later);
            },
        }
    }
}

/// Reading the bytes of an internal node gives the node again: children at
/// the same nibbles with the same hashes and versions, leaves where there
/// were leaves, and so the same bitmaps and the same hash. The leaf counts
/// come back where they were written and are not zero.
#[verifier::rlimit(40)]
pub proof fn lemma_internal_roundtrip(slots: Slots, persist_leaf_counts: bool)
    requires
        slots_wf(slots),
        hashes_wf(slots),
    ensures
        internal_decoding(internal_encoding(slots, persist_leaf_counts), persist_leaf_counts)
            == Ok::<Slots, NodeDecodeError>(normalized(slots, persist_leaf_counts)),
        same_shape(normalized(slots, persist_leaf_counts), slots),
        existence_bitmap(normalized(slots, persist_leaf_counts)) == existence_bitmap(slots),
        leaf_bitmap(normalized(slots, persist_leaf_counts)) == leaf_bitmap(slots),
        merkle(normalized(slots, persist_leaf_counts), 0, 16) == merkle(slots, 0, 16),
{
    let e = existence_bitmap(slots);
    let l = leaf_bitmap(slots);
    let data = internal_encoding(slots, persist_leaf_counts);
    let back = normalized(slots, persist_leaf_counts);
    lemma_le_u16_roundtrip(e);
    lemma_le_u16_roundtrip(l);
    assert(data.subrange(0, 2) =~= le_u16(e));
    assert(data.subrange(2, 4) =~= le_u16(l));
    lemma_same_shape_range(slots, slots, 0, 16);
    let first = first_in(slots, 0, 16);
    lemma_bitmap_bits(existence_flags(slots), 16, first);
    let f = first as u16;
    assert(e != 0) by (bit_vector)
        requires
            (e >> f) & 1 == 1,
    ;
    lemma_bitmap_subset(existence_flags(slots), leaf_flags(slots), 16);
    lemma_children_roundtrip(le_u16(e) + le_u16(l), slots, Seq::<u8>::empty(), persist_leaf_counts, 0);
    assert(le_u16(e) + le_u16(l) + children_encoding(slots, 0, persist_leaf_counts) + Seq::<
        u8,
    >::empty() =~= data);
    assert(back.subrange(0, 16) =~= back);
    assert(same_shape(back, slots));
    lemma_same_shape_range(back, slots, 0, 16);
    lemma_hash_by_shape(back, slots);
    assert(existence_flags(back) =~= existence_flags(slots));
    assert(leaf_flags(back) =~= leaf_flags(slots));
}

} // verus!
