//! The internal node of the tree: sixteen slots for children, hashed as a
//! binary Merkle tree of four levels; and its children.

use crate::bytes::{append, le_u16, le_u16_value, u16_from_le, u16_to_le};
use crate::hash::{sparse_merkle_placeholder, HashDomain, HashValue};
use crate::jellyfish_merkle::nibble::{Nibble, ROOT_NIBBLE_HEIGHT};
use crate::jellyfish_merkle::node_key::NodeKey;
use crate::jellyfish_merkle::varint::{
    deserialize_u64_varint, serialize_u64_varint, varint, varint_read,
};
use crate::transaction::Version;
use vstd::prelude::*;

verus! {

/// What kind of node a child is.
#[derive(Clone, Copy, Debug, PartialEq, Eq, Structural)]
pub enum NodeType {
    Leaf,
    /// An internal node whose number of leaves is not known, because the
    /// migration to leaf counts has not reached it.
    InternalLegacy,
    /// An internal node with `leaf_count` leaves under it.
    Internal { leaf_count: usize },
}

/// A child of an internal node.
#[derive(Clone, Copy, Debug, PartialEq, Eq)]
pub struct Child {
    /// The hash of the child.
    pub hash: HashValue,
    /// The version at which the child was created. With the path of the
    /// internal node and the nibble of the child it makes the child's key.
    pub version: Version,
    /// Whether the child is a leaf, and else the number of leaves under it,
    /// where it is known.
    pub node_type: NodeType,
}

/// A child as plain values.
pub struct ChildView {
    pub hash: Seq<u8>,
    pub version: Version,
    pub node_type: NodeType,
}

impl View for Child {
    type V = ChildView;

    open spec fn view(&self) -> ChildView {
        ChildView { hash: self.hash@, version: self.version, node_type: self.node_type }
    }
}

impl ChildView {
    /// Whether the child is a leaf.
    pub open spec fn is_leaf(self) -> bool {
        self.node_type is Leaf
    }

    /// The number of leaves under the child, where it is known: one for a
    /// leaf.
    pub open spec fn leaf_count(self) -> Option<usize> {
        match self.node_type {
            NodeType::Leaf => Some(1usize),
            NodeType::InternalLegacy => None,
            NodeType::Internal { leaf_count } => Some(leaf_count),
        }
    }
}

impl Child {
    pub fn new(hash: HashValue, version: Version, node_type: NodeType) -> (r: Self)
        ensures
            r@ == (ChildView { hash: hash@, version, node_type }),
    {
        Child { hash, version, node_type }
    }

    pub fn is_leaf(&self) -> (r: bool)
        ensures
            r == self@.is_leaf(),
    {
        match self.node_type {
            NodeType::Leaf => true,
            _ => false,
        }
    }

    pub fn leaf_count(&self) -> (r: Option<usize>)
        ensures
            r == self@.leaf_count(),
    {
        match self.node_type {
            NodeType::Leaf => Some(1),
            NodeType::InternalLegacy => None,
            NodeType::Internal { leaf_count } => Some(leaf_count),
        }
    }
}

/// The sixteen slots of an internal node, as plain values.
pub type Slots = Seq<Option<ChildView>>;

/// The hash of an internal node of a sparse Merkle tree with the children
/// `left` and `right`.
pub open spec fn internal_hash(left: Seq<u8>, right: Seq<u8>) -> Seq<u8> {
    HashDomain::SparseMerkleInternal.hash_of(left + right)
}

/// The number of children in the slots from `start` on, `width` slots wide.
pub open spec fn count_in(slots: Slots, start: int, width: int) -> nat
    decreases width,
{
    if width <= 0 {
        0
    } else {
        count_in(slots, start, width - 1) + if slots[start + width - 1] is Some {
            1nat
        } else {
            0nat
        }
    }
}

/// The first slot with a child from `start` on, `width` slots wide; the
/// place behind the range where there is none.
pub open spec fn first_in(slots: Slots, start: int, width: int) -> int
    decreases width,
{
    if width <= 0 {
        start
    } else if slots[start] is Some {
        start
    } else {
        first_in(slots, start + 1, width - 1)
    }
}

/// Whether the slots from `start` on, `width` slots wide, stand for a single
/// node of the tree: the range is one slot wide, or it holds one child only
/// and that child is a leaf.
pub open spec fn resolves(slots: Slots, start: int, width: int) -> bool {
    width == 1 || (count_in(slots, start, width) == 1 && slots[first_in(
        slots,
        start,
        width,
    )]->Some_0.is_leaf())
}

/// The hash of the subtree over the slots from `start` on, `width` slots
/// wide, where `width` is a power of two up to sixteen. A subtree without a
/// child has the placeholder for its hash. One of a single slot, or with a
/// single leaf for its only child, has the hash of that child. Any other has
/// the hash of its two halves.
pub open spec fn merkle(slots: Slots, start: int, width: int) -> Seq<u8>
    decreases width,
{
    if count_in(slots, start, width) == 0 {
        sparse_merkle_placeholder()
    } else if width <= 1 || resolves(slots, start, width) {
        slots[first_in(slots, start, width)]->Some_0.hash
    } else {
        internal_hash(
            merkle(slots, start, width / 2),
            merkle(slots, start + width / 2, width / 2),
        )
    }
}

/// The bitmap of sixteen flags, the first `n` of them: the bit `i` is set
/// where the flag `i` is.
pub open spec fn bitmap_of(flags: Seq<bool>, n: int) -> u16
    decreases n,
{
    if n <= 0 {
        0u16
    } else if flags[n - 1] {
        bitmap_of(flags, n - 1) | (1u16 << ((n - 1) as u16))
    } else {
        bitmap_of(flags, n - 1)
    }
}

/// Which slots hold a child.
pub open spec fn existence_flags(slots: Slots) -> Seq<bool> {
    Seq::new(16, |i: int| slots[i] is Some)
}

/// Which slots hold a leaf.
pub open spec fn leaf_flags(slots: Slots) -> Seq<bool> {
    Seq::new(16, |i: int| slots[i] is Some && slots[i]->Some_0.is_leaf())
}

/// The bitmap of the slots that hold a child.
pub open spec fn existence_bitmap(slots: Slots) -> u16 {
    bitmap_of(existence_flags(slots), 16)
}

/// The bitmap of the slots that hold a leaf.
pub open spec fn leaf_bitmap(slots: Slots) -> u16 {
    bitmap_of(leaf_flags(slots), 16)
}

/// The number of leaves under the first `n` slots, where it is known for
/// each child among them and fits the machine's word.
pub open spec fn sum_leaf_count(slots: Slots, n: int) -> Option<usize>
    decreases n,
{
    if n <= 0 {
        Some(0usize)
    } else {
        match sum_leaf_count(slots, n - 1) {
            None => None,
            Some(sum) => match slots[n - 1] {
                None => Some(sum),
                Some(child) => match child.leaf_count() {
                    None => None,
                    Some(count) => if sum + count <= usize::MAX {
                        Some((sum + count) as usize)
                    } else {
                        None
                    },
                },
            },
        }
    }
}

/// Whether slots make an internal node: there are sixteen of them, at least
/// one holds a child, and an only child is no leaf.
pub open spec fn slots_wf(slots: Slots) -> bool {
    &&& slots.len() == 16
    &&& count_in(slots, 0, 16) >= 1
    &&& (count_in(slots, 0, 16) == 1 ==> !slots[first_in(slots, 0, 16)]->Some_0.is_leaf())
}

/// The slots that a list of children with their nibbles fills.
pub open spec fn slots_of(pairs: Seq<(Nibble, Child)>) -> Slots {
    Seq::new(
        16,
        |i: int|
            if exists|k: int| 0 <= k < pairs.len() && (#[trigger] pairs[k]).0@ == i {
                Some(
                    pairs[choose|k: int| 0 <= k < pairs.len() && (#[trigger] pairs[k]).0@ == i].1@,
                )
            } else {
                None
            },
    )
}

/// Whether no nibble comes twice in a list of children.
pub open spec fn nibbles_distinct(pairs: Seq<(Nibble, Child)>) -> bool {
    forall|a: int, b: int|
        0 <= a < b < pairs.len() ==> (#[trigger] pairs[a]).0@ != (#[trigger] pairs[b]).0@
}

/// The bytes of a child: its version, its hash and, for an internal child
/// where leaf counts are persisted, the number of leaves under it; zero
/// stands for a number that is not known.
pub open spec fn child_encoding(child: ChildView, persist_leaf_counts: bool) -> Seq<u8> {
    varint(child.version) + child.hash + match child.node_type {
        NodeType::Leaf => Seq::<u8>::empty(),
        NodeType::InternalLegacy => if persist_leaf_counts {
            varint(0)
        } else {
            Seq::<u8>::empty()
        },
        NodeType::Internal { leaf_count } => if persist_leaf_counts {
            varint(leaf_count as u64)
        } else {
            Seq::<u8>::empty()
        },
    }
}

/// The bytes of the children in the slots from `i` on, in the order of the
/// slots.
pub open spec fn children_encoding(slots: Slots, i: int, persist_leaf_counts: bool) -> Seq<u8>
    decreases 16 - i,
{
    if i >= 16 || i < 0 {
        Seq::<u8>::empty()
    } else {
        (match slots[i] {
            Some(child) => child_encoding(child, persist_leaf_counts),
            None => Seq::<u8>::empty(),
        }) + children_encoding(slots, i + 1, persist_leaf_counts)
    }
}

/// The bytes of an internal node: the bitmap of its children and the bitmap
/// of its leaves, each least significant byte first, and the children.
pub open spec fn internal_encoding(slots: Slots, persist_leaf_counts: bool) -> Seq<u8> {
    le_u16(existence_bitmap(slots)) + le_u16(leaf_bitmap(slots)) + children_encoding(
        slots,
        0,
        persist_leaf_counts,
    )
}

/// The start of the half that holds the nibble `n` at the height `height`,
/// and the start of the other half of the same subtree.
pub open spec fn half_starts(n: u8, height: u8) -> (u8, u8) {
    let child_half_start = (0xffu8 << height) & n;
    (child_half_start, child_half_start ^ (1u8 << height))
}

/// Given a nibble, computes the start of the half that it lies in at the
/// height `height`, and the start of the other half of the same subtree.
pub fn get_child_and_sibling_half_start(n: Nibble, height: u8) -> (r: (u8, u8))
    requires
        height < 4,
    ensures
        r == half_starts(n@, height),
        r.0 + (1u8 << height) <= 16,
        r.1 + (1u8 << height) <= 16,
{
    let value = n.value();
    let child_half_start = (0xffu8 << height) & value;
    let sibling_half_start = child_half_start ^ (1u8 << height);
    assert(child_half_start + (1u8 << height) <= 16 && sibling_half_start + (1u8 << height) <= 16)
        by (bit_vector)
        requires
            height < 4,
            value < 16,
            child_half_start == (0xffu8 << height) & value,
            sibling_half_start == child_half_start ^ (1u8 << height),
    ;
    (child_half_start, sibling_half_start)
}

/// The hash of the sibling at the height `height` on the way to the nibble
/// `n`: that of the other half of the subtree that holds `n` at that height.
pub open spec fn sibling_at(slots: Slots, n: u8, height: u8) -> Seq<u8> {
    merkle(slots, half_starts(n, height).1 as int, (1u8 << height) as int)
}

/// The slot of the child that is found on the way to the nibble `n` from the
/// height `height` down: at the first height at which the half that holds
/// `n` has no child, none; at the first at which it stands for a single
/// node, the child of that node, which need not be the child at `n`.
pub open spec fn child_slot(slots: Slots, n: u8, height: int) -> Option<int>
    decreases height,
{
    let start = half_starts(n, height as u8).0 as int;
    let width = (1u8 << (height as u8)) as int;
    if count_in(slots, start, width) == 0 {
        None
    } else if height <= 0 || resolves(slots, start, width) {
        Some(first_in(slots, start, width))
    } else {
        child_slot(slots, n, height - 1)
    }
}

/// Why bytes were not read as a node.
#[derive(Clone, Copy, Debug, PartialEq, Eq, Structural)]
pub enum NodeDecodeError {
    /// Input is empty.
    EmptyInput,
    /// The first byte of the input is not a known tag.
    UnknownTag { unknown_tag: u8 },
    /// No children found in internal node.
    NoChildren,
    /// Leaf bits are set for slots without a child.
    ExtraLeaves { existing: u16, leaves: u16 },
    /// The bytes end before the node does.
    UnexpectedEof,
    /// The only child of an internal node is a leaf.
    LoneLeaf,
    /// A leaf count does not fit the machine's word.
    LeafCountTooLarge,
    /// The bytes of a leaf are not the canonical encoding of one.
    InvalidLeaf,
}

/// Whether the bit `i` of a bitmap is set.
pub open spec fn bit(bitmap: u16, i: int) -> bool {
    (bitmap >> (i as u16)) & 1 == 1
}

/// The kind of an internal child that was written with the leaf count
/// `count`: zero stands for a count that is not known.
pub open spec fn counted(count: u64) -> NodeType {
    if count == 0 {
        NodeType::InternalLegacy
    } else {
        NodeType::Internal { leaf_count: count as usize }
    }
}

/// The child that stands at `pos` in `data`, with the place behind it.
pub open spec fn child_decoding(data: Seq<u8>, pos: int, is_leaf: bool, read_leaf_counts: bool) -> Result<
    (ChildView, int),
    NodeDecodeError,
> {
    match varint_read(data, pos) {
        None => Err(NodeDecodeError::UnexpectedEof),
        Some((version, hash_at)) => if hash_at + 32 > data.len() {
            Err(NodeDecodeError::UnexpectedEof)
        } else {
            let hash = data.subrange(hash_at, hash_at + 32);
            if is_leaf {
                Ok((ChildView { hash, version, node_type: NodeType::Leaf }, hash_at + 32))
            } else if !read_leaf_counts {
                Ok((ChildView { hash, version, node_type: NodeType::InternalLegacy }, hash_at + 32))
            } else {
                match varint_read(data, hash_at + 32) {
                    None => Err(NodeDecodeError::UnexpectedEof),
                    Some((count, next)) => if count > usize::MAX {
                        Err(NodeDecodeError::LeafCountTooLarge)
                    } else {
                        Ok((ChildView { hash, version, node_type: counted(count) }, next))
                    },
                }
            }
        },
    }
}

/// The slots from `i` on that the bytes from `pos` on spell, for the bitmaps
/// `existence` and `leaves`.
pub open spec fn children_decoding(
    data: Seq<u8>,
    pos: int,
    existence: u16,
    leaves: u16,
    read_leaf_counts: bool,
    i: int,
) -> Result<Slots, NodeDecodeError>
    decreases 16 - i,
{
    if i >= 16 || i < 0 {
        Ok(Seq::<Option<ChildView>>::empty())
    } else if !bit(existence, i) {
        match children_decoding(data, pos, existence, leaves, read_leaf_counts, i + 1) {
            Ok(rest) => Ok(seq![None::<ChildView>] + rest),
            Err(e) => Err(e),
        }
    } else {
        match child_decoding(data, pos, bit(leaves, i), read_leaf_counts) {
            Err(e) => Err(e),
            Ok((child, next)) => match children_decoding(
                data,
                next,
                existence,
                leaves,
                read_leaf_counts,
                i + 1,
            ) {
                Ok(rest) => Ok(seq![Some(child)] + rest),
                Err(e) => Err(e),
            },
        }
    }
}

/// The slots that bytes spell, or the reason for which the bytes are
/// refused. Bytes behind the last child are not read.
pub open spec fn internal_decoding(data: Seq<u8>, read_leaf_counts: bool) -> Result<
    Slots,
    NodeDecodeError,
> {
    if data.len() < 4 {
        Err(NodeDecodeError::UnexpectedEof)
    } else {
        let existence = le_u16_value(data.subrange(0, 2));
        let leaves = le_u16_value(data.subrange(2, 4));
        if existence == 0 {
            Err(NodeDecodeError::NoChildren)
        } else if existence & leaves != leaves {
            Err(NodeDecodeError::ExtraLeaves { existing: existence, leaves })
        } else {
            match children_decoding(data, 4, existence, leaves, read_leaf_counts, 0) {
                Err(e) => Err(e),
                Ok(slots) => if count_in(slots, 0, 16) == 0 {
                    Err(NodeDecodeError::NoChildren)
                } else if count_in(slots, 0, 16) == 1 && slots[first_in(slots, 0, 16)]->Some_0.is_leaf() {
                    Err(NodeDecodeError::LoneLeaf)
                } else {
                    Ok(slots)
                },
            }
        }
    }
}

/// An internal node: a subtree of four levels with up to sixteen children at
/// the lowest level.
#[derive(Debug, PartialEq, Eq)]
pub struct InternalNode {
    children: Vec<Option<Child>>,
    leaf_count: Option<usize>,
    leaf_count_migration: bool,
}

impl View for InternalNode {
    type V = Slots;

    /// The sixteen slots of the node.
    closed spec fn view(&self) -> Slots {
        Seq::new(
            self.children@.len(),
            |i: int|
                match self.children@[i] {
                    Some(child) => Some(child@),
                    None => None,
                },
        )
    }
}

impl Clone for InternalNode {
    fn clone(&self) -> (r: Self)
        ensures
            r@ == self@,
            r.spec_leaf_count_migration() == self.spec_leaf_count_migration(),
            r.spec_leaf_count() == self.spec_leaf_count(),
    {
        proof {
            use_type_invariant(self);
        }
        let mut children: Vec<Option<Child>> = Vec::new();
        let mut i: usize = 0;
        while i < self.children.len()
            invariant
                i <= self.children.len(),
                children@ == self.children@.take(i as int),
            decreases self.children.len() - i,
        {
            children.push(self.children[i]);
            i += 1;
            assert(children@ =~= self.children@.take(i as int));
        }
        assert(self.children@.take(i as int) =~= self.children@);
        let r = InternalNode {
            children,
            leaf_count: self.leaf_count,
            leaf_count_migration: self.leaf_count_migration,
        };
        assert(r@ =~= self@);
        r
    }
}

impl InternalNode {
    #[verifier::type_invariant]
    spec fn inv(self) -> bool {
        &&& slots_wf(self@)
        &&& self.leaf_count == sum_leaf_count(self@, 16)
    }

    /// Whether the node is written with the leaf counts of its children.
    pub closed spec fn spec_leaf_count_migration(&self) -> bool {
        self.leaf_count_migration
    }

    /// The number of leaves under the node, where it is known.
    pub closed spec fn spec_leaf_count(&self) -> Option<usize> {
        self.leaf_count
    }

    /// A node is as its invariant says.
    pub fn check_wf(&self)
        ensures
            slots_wf(self@),
            self.spec_leaf_count() == sum_leaf_count(self@, 16),
    {
        proof {
            use_type_invariant(self);
        }
    }

    /// A node that is written with the leaf counts of its children.
    pub fn new(children: Vec<(Nibble, Child)>) -> (r: Self)
        requires
            nibbles_distinct(children@),
            slots_wf(slots_of(children@)),
        ensures
            r@ == slots_of(children@),
            r.spec_leaf_count_migration(),
    {
        Self::new_migration(children, true)
    }

    /// A node with the children given, each at its nibble. There is a child,
    /// no nibble comes twice, and an only child is no leaf: a single leaf
    /// belongs to the parent of this node.
    #[verifier::rlimit(40)]
    pub fn new_migration(children: Vec<(Nibble, Child)>, leaf_count_migration: bool) -> (r: Self)
        requires
            nibbles_distinct(children@),
            slots_wf(slots_of(children@)),
        ensures
            r@ == slots_of(children@),
            r.spec_leaf_count_migration() == leaf_count_migration,
    {
        let mut slots: Vec<Option<Child>> = Vec::new();
        let mut i: usize = 0;
        while i < 16
            invariant
                i <= 16,
                slots@.len() == i,
                forall|j: int| 0 <= j < i ==> #[trigger] slots@[j] is None,
            decreases 16 - i,
        {
            slots.push(None);
            i += 1;
        }
        let mut k: usize = 0;
        while k < children.len()
            invariant
                k <= children.len(),
                slots@.len() == 16,
                nibbles_distinct(children@),
                forall|j: int|
                    0 <= j < 16 ==> if exists|a: int|
                        0 <= a < k && (#[trigger] children@[a]).0@ == j {
                        (#[trigger] slots@[j]) == Some(
                            children@[choose|a: int| 0 <= a < k && (#[trigger] children@[a]).0@ == j].1,
                        )
                    } else {
                        slots@[j] is None
                    },
            decreases children.len() - k,
        {
            let nibble = children[k].0.value();
            let ghost before = slots@;
            slots[nibble as usize] = Some(children[k].1);
            proof {
                assert forall|j: int| 0 <= j < 16 implies if exists|a: int|
                    0 <= a < k + 1 && (#[trigger] children@[a]).0@ == j {
                    (#[trigger] slots@[j]) == Some(
                        children@[choose|a: int| 0 <= a < k + 1 && (#[trigger] children@[a]).0@ == j].1,
                    )
                } else {
                    slots@[j] is None
                } by {
                    if j == nibble {
                        assert(children@[k as int].0@ == j);
                        let c = choose|a: int| 0 <= a < k + 1 && (#[trigger] children@[a]).0@ == j;
                        if c != k {
                            assert(children@[c].0@ != children@[k as int].0@);
                        }
                    } else {
                        if exists|a: int| 0 <= a < k + 1 && (#[trigger] children@[a]).0@ == j {
                            let c = choose|a: int|
                                0 <= a < k + 1 && (#[trigger] children@[a]).0@ == j;
                            assert(c < k);
                            assert(children@[c].0@ == j);
                            let d = choose|a: int| 0 <= a < k && (#[trigger] children@[a]).0@ == j;
                            if c != d {
                                if c < d {
                                    assert(children@[c].0@ != children@[d].0@);
                                } else {
                                    assert(children@[d].0@ != children@[c].0@);
                                }
                            }
                        } else {
                            if exists|a: int| 0 <= a < k && (#[trigger] children@[a]).0@ == j {
                                let d = choose|a: int|
                                    0 <= a < k && (#[trigger] children@[a]).0@ == j;
                                assert(children@[d].0@ == j);
                            }
                        }
                    }
                }
            }
            k += 1;
        }
        let ghost view = Seq::new(
            16,
            |i: int|
                match slots@[i] {
                    Some(child) => Some(child@),
                    None => None,
                },
        );
        proof {
            assert(view =~= slots_of(children@)) by {
                assert forall|j: int| 0 <= j < 16 implies view[j] == slots_of(children@)[j] by {
                    if exists|a: int| 0 <= a < children@.len() && (#[trigger] children@[a]).0@ == j {
                        let c = choose|a: int|
                            0 <= a < children@.len() && (#[trigger] children@[a]).0@ == j;
                        assert(children@[c].0@ == j);
                    } else {
                        if exists|a: int| 0 <= a < k && (#[trigger] children@[a]).0@ == j {
                            let d = choose|a: int| 0 <= a < k && (#[trigger] children@[a]).0@ == j;
                            assert(children@[d].0@ == j);
                        }
                    }
                }
            }
        }
        let leaf_count = sum_leaf_counts(&slots);
        assert(view =~= slots_view(slots@));
        InternalNode { children: slots, leaf_count, leaf_count_migration }
    }

    /// Whether the node is written with the leaf counts of its children.
    pub fn leaf_count_migration(&self) -> (r: bool)
        ensures
            r == self.spec_leaf_count_migration(),
    {
        self.leaf_count_migration
    }

    /// The number of leaves under the node: the sum of those under its
    /// children, where each is known.
    pub fn leaf_count(&self) -> (r: Option<usize>)
        ensures
            r == sum_leaf_count(self@, 16),
            r == self.spec_leaf_count(),
    {
        proof {
            use_type_invariant(self);
        }
        self.leaf_count
    }

    /// What kind of child this node makes.
    pub fn node_type(&self) -> (r: NodeType)
        ensures
            r == match sum_leaf_count(self@, 16) {
                Some(leaf_count) => NodeType::Internal { leaf_count },
                None => NodeType::InternalLegacy,
            },
    {
        proof {
            use_type_invariant(self);
        }
        match self.leaf_count {
            Some(leaf_count) => NodeType::Internal { leaf_count },
            None => NodeType::InternalLegacy,
        }
    }

    /// Gets the `n`-th child.
    pub fn child(&self, n: Nibble) -> (r: Option<&Child>)
        ensures
            r is Some <==> self@[n@ as int] is Some,
            r is Some ==> r->Some_0@ == self@[n@ as int]->Some_0,
    {
        proof {
            use_type_invariant(self);
        }
        let i = n.value() as usize;
        match &self.children[i] {
            Some(child) => Some(child),
            None => None,
        }
    }

    /// The child in the slot `i`.
    fn slot(&self, i: usize) -> (r: Option<Child>)
        requires
            i < 16,
        ensures
            r is Some <==> self@[i as int] is Some,
            r is Some ==> r->Some_0@ == self@[i as int]->Some_0,
            self@.len() == 16,
    {
        proof {
            use_type_invariant(self);
        }
        self.children[i]
    }

    /// The bitmap of the slots that hold a child and the bitmap of the slots
    /// that hold a leaf. The second is a subset of the first.
    pub fn generate_bitmaps(&self) -> (r: (u16, u16))
        ensures
            r.0 == existence_bitmap(self@),
            r.1 == leaf_bitmap(self@),
            r.0 | r.1 == r.0,
    {
        let mut existence: u16 = 0;
        let mut leaves: u16 = 0;
        let mut i: u16 = 0;
        assert(0u16 | 0u16 == 0u16) by (bit_vector);
        while i < 16
            invariant
                i <= 16,
                existence == bitmap_of(existence_flags(self@), i as int),
                leaves == bitmap_of(leaf_flags(self@), i as int),
                existence | leaves == existence,
            decreases 16 - i,
        {
            match self.slot(i as usize) {
                Some(child) => {
                    let ghost e0 = existence;
                    let ghost l0 = leaves;
                    existence = existence | (1u16 << i);
                    if child.is_leaf() {
                        leaves = leaves | (1u16 << i);
                    }
                    assert(existence | leaves == existence) by (bit_vector)
                        requires
                            e0 | l0 == e0,
                            existence == e0 | (1u16 << i),
                            leaves == l0 || leaves == l0 | (1u16 << i),
                    ;
                },
                None => {},
            }
            i += 1;
        }
        (existence, leaves)
    }

    /// The number of children in a range of slots, and the first of them.
    fn scan(&self, start: u8, width: u8) -> (r: (u8, u8))
        requires
            start + width <= 16,
        ensures
            r.0 == count_in(self@, start as int, width as int),
            r.1 == first_in(self@, start as int, width as int),
            r.0 > 0 ==> start <= r.1 < start + width && self@[r.1 as int] is Some,
            r.0 <= width,
    {
        let mut count: u8 = 0;
        let mut first: u8 = start + width;
        let mut i: u8 = width;
        while i > 0
            invariant
                i <= width,
                start + width <= 16,
                count <= width - i,
                count == count_in(self@, start + i, width - i),
                first == first_in(self@, start + i, width - i),
                count > 0 ==> start + i <= first < start + width && self@[first as int] is Some,
            decreases i,
        {
            i -= 1;
            proof {
                lemma_count_front(self@, start + i, width - i);
            }
            match self.slot((start + i) as usize) {
                Some(_) => {
                    count += 1;
                    first = start + i;
                },
                None => {},
            }
        }
        (count, first)
    }

    /// The hash of the subtree over a range of slots.
    fn merkle_hash(&self, start: u8, width: u8) -> (r: HashValue)
        requires
            start + width <= 16,
            width == 1 || width == 2 || width == 4 || width == 8 || width == 16,
        ensures
            r@ == merkle(self@, start as int, width as int),
        decreases width,
    {
        let (count, first) = self.scan(start, width);
        if count == 0 {
            HashValue::sparse_merkle_placeholder()
        } else {
            let only = match self.slot(first as usize) {
                Some(child) => child,
                None => Child {
                    hash: HashValue::sparse_merkle_placeholder(),
                    version: 0,
                    node_type: NodeType::Leaf,
                },
            };
            if width == 1 || (count == 1 && only.is_leaf()) {
                only.hash
            } else {
                let left_child = self.merkle_hash(start, width / 2);
                let right_child = self.merkle_hash(start + width / 2, width / 2);
                let mut both: Vec<u8> = Vec::new();
                append(&mut both, &left_child.hash);
                append(&mut both, &right_child.hash);
                HashDomain::SparseMerkleInternal.hash(both.as_slice())
            }
        }
    }

    /// The hash of the node: that of the subtree over all sixteen slots.
    pub fn hash(&self) -> (r: HashValue)
        ensures
            r@ == merkle(self@, 0, 16),
    {
        self.merkle_hash(0, 16)
    }

    /// Appends the bytes of the node, with or without the leaf counts of its
    /// children.
    #[verifier::rlimit(40)]
    pub fn serialize(&self, binary: &mut Vec<u8>, persist_leaf_counts: bool)
        ensures
            final(binary)@ == old(binary)@ + internal_encoding(self@, persist_leaf_counts),
    {
        let (existence_bitmap, leaf_bitmap) = self.generate_bitmaps();
        let e = u16_to_le(existence_bitmap);
        append(binary, &e);
        let l = u16_to_le(leaf_bitmap);
        append(binary, &l);
        let ghost head = binary@;
        let mut i: usize = 0;
        while i < 16
            invariant
                i <= 16,
                head + children_encoding(self@, 0, persist_leaf_counts) == binary@
                    + children_encoding(self@, i as int, persist_leaf_counts),
            decreases 16 - i,
        {
            let ghost before = binary@;
            match self.slot(i) {
                Some(child) => {
                    serialize_u64_varint(child.version, binary);
                    append(binary, &child.hash.hash);
                    match child.node_type {
                        NodeType::Leaf => {},
                        NodeType::InternalLegacy => {
                            if persist_leaf_counts {
                                serialize_u64_varint(0, binary);
                            }
                        },
                        NodeType::Internal { leaf_count } => {
                            if persist_leaf_counts {
                                serialize_u64_varint(leaf_count as u64, binary);
                            }
                        },
                    }
                    assert(binary@ =~= before + child_encoding(child@, persist_leaf_counts));
                },
                None => {},
            }
            assert(binary@ + children_encoding(self@, i as int + 1, persist_leaf_counts) =~= before
                + children_encoding(self@, i as int, persist_leaf_counts));
            i += 1;
        }
        assert(binary@ =~= old(binary)@ + internal_encoding(self@, persist_leaf_counts));
    }
}

/// The number of children among optional children, and the first of them.
fn scan_children(children: &Vec<Option<Child>>) -> (r: (u8, Option<Child>))
    requires
        children@.len() == 16,
    ensures
        r.0 == count_in(slots_view(children@), 0, 16),
        r.0 > 0 ==> r.1 is Some && Some(r.1->Some_0@) == slots_view(children@)[first_in(
            slots_view(children@),
            0,
            16,
        )],
{
    let ghost slots = slots_view(children@);
    let mut count: u8 = 0;
    let mut first: Option<Child> = None;
    let mut i: usize = 16;
    while i > 0
        invariant
            i <= 16,
            children@.len() == 16,
            slots == slots_view(children@),
            count <= 16 - i,
            count == count_in(slots, i as int, 16 - i),
            count > 0 ==> first is Some && Some(first->Some_0@) == slots[first_in(
                slots,
                i as int,
                16 - i,
            )] && i <= first_in(slots, i as int, 16 - i) < 16,
        decreases i,
    {
        i -= 1;
        proof {
            lemma_count_front(slots, i as int, 16 - i);
        }
        match children[i] {
            Some(child) => {
                count += 1;
                first = Some(child);
            },
            None => {},
        }
    }
    (count, first)
}

impl InternalNode {
    /// Gets the child that is found on the way to the `n`-th child, and the
    /// four hashes of the siblings on that way, from the height three down
    /// to the height zero. The child found is the `n`-th child where that
    /// one exists; where another child is found, it proves that the `n`-th
    /// child does not exist.
    #[verifier::rlimit(40)]
    pub fn get_child_with_siblings(&self, node_key: &NodeKey, n: Nibble) -> (r: (
        Option<NodeKey>,
        Vec<HashValue>,
    ))
        requires
            node_key.spec_nibble_path()@.len() < ROOT_NIBBLE_HEIGHT,
        ensures
            r.1@.len() == 4,
            forall|k: int| 0 <= k < 4 ==> (#[trigger] r.1@[k])@ == sibling_at(self@, n@, (3 - k) as u8),
            r.0 is Some <==> child_slot(self@, n@, 3) is Some,
            r.0 is Some ==> {
                let slot = child_slot(self@, n@, 3)->Some_0;
                &&& 0 <= slot < 16
                &&& self@[slot] is Some
                &&& r.0->Some_0.spec_version() == self@[slot]->Some_0.version
                &&& r.0->Some_0.spec_nibble_path()@ == node_key.spec_nibble_path()@.push(slot as u8)
            },
    {
        let mut siblings: Vec<HashValue> = Vec::new();
        let mut found: Option<Option<NodeKey>> = None;
        let mut h: u8 = 4;
        while h > 0
            invariant
                h <= 4,
                node_key.spec_nibble_path()@.len() < ROOT_NIBBLE_HEIGHT,
                siblings@.len() == 4 - h,
                forall|k: int|
                    0 <= k < 4 - h ==> (#[trigger] siblings@[k])@ == sibling_at(
                        self@,
                        n@,
                        (3 - k) as u8,
                    ),
                found is None ==> h == 0 || child_slot(self@, n@, 3) == child_slot(
                    self@,
                    n@,
                    h as int - 1,
                ),
                found is None ==> h > 0,
                found is Some ==> {
                    &&& found->Some_0 is Some <==> child_slot(self@, n@, 3) is Some
                    &&& found->Some_0 is Some ==> {
                        let slot = child_slot(self@, n@, 3)->Some_0;
                        &&& 0 <= slot < 16
                        &&& self@[slot] is Some
                        &&& found->Some_0->Some_0.spec_version() == self@[slot]->Some_0.version
                        &&& found->Some_0->Some_0.spec_nibble_path()@
                            == node_key.spec_nibble_path()@.push(slot as u8)
                    }
                },
            decreases h,
        {
            h -= 1;
            let width: u8 = 1u8 << h;
            assert((width == 1 || width == 2 || width == 4 || width == 8) && (h == 0 ==> width == 1))
                by (bit_vector)
                requires
                    h < 4,
                    width == 1u8 << h,
            ;
            let (child_half_start, sibling_half_start) = get_child_and_sibling_half_start(n, h);
            siblings.push(self.merkle_hash(sibling_half_start, width));
            if found.is_none() {
                let (count, first) = self.scan(child_half_start, width);
                if count == 0 {
                    found = Some(None);
                } else {
                    match self.slot(first as usize) {
                        Some(only) => {
                            if width == 1 || (count == 1 && only.is_leaf()) {
                                found = Some(
                                    Some(node_key.gen_child_node_key(only.version, Nibble::new(first))),
                                );
                            }
                        },
                        None => {},
                    }
                }
            }
        }
        match found {
            Some(child) => (child, siblings),
            None => (None, siblings),
        }
    }

    /// Reads a node from its bytes, which hold the leaf counts of its
    /// children or not.
    #[verifier::rlimit(40)]
    pub fn deserialize(data: &[u8], read_leaf_counts: bool) -> (r: Result<Self, NodeDecodeError>)
        ensures
            r is Ok <==> internal_decoding(data@, read_leaf_counts) is Ok,
            r is Ok ==> r->Ok_0@ == internal_decoding(data@, read_leaf_counts)->Ok_0
                && r->Ok_0.spec_leaf_count_migration() == read_leaf_counts,
            r is Err ==> r->Err_0 == internal_decoding(data@, read_leaf_counts)->Err_0,
    {
        if data.len() < 4 {
            return Err(NodeDecodeError::UnexpectedEof);
        }
        let existence_bitmap = u16_from_le(vstd::slice::slice_subrange(data, 0, 2));
        let leaf_bitmap = u16_from_le(vstd::slice::slice_subrange(data, 2, 4));
        assert(data@.subrange(0, 2).subrange(0, 2) =~= data@.subrange(0, 2));
        assert(data@.subrange(2, 4).subrange(0, 2) =~= data@.subrange(2, 4));
        if existence_bitmap == 0 {
            return Err(NodeDecodeError::NoChildren);
        }
        if existence_bitmap & leaf_bitmap != leaf_bitmap {
            return Err(
                NodeDecodeError::ExtraLeaves { existing: existence_bitmap, leaves: leaf_bitmap },
            );
        }
        let ghost total = children_decoding(
            data@,
            4,
            existence_bitmap,
            leaf_bitmap,
            read_leaf_counts,
            0,
        );
        let mut children: Vec<Option<Child>> = Vec::new();
        let mut pos: usize = 4;
        let mut i: u16 = 0;
        while i < 16
            invariant
                i <= 16,
                pos <= data@.len(),
                children@.len() == i,
                data@.len() >= 4,
                existence_bitmap == le_u16_value(data@.subrange(0, 2)),
                leaf_bitmap == le_u16_value(data@.subrange(2, 4)),
                existence_bitmap != 0,
                existence_bitmap & leaf_bitmap == leaf_bitmap,
                total == children_decoding(
                    data@,
                    4,
                    existence_bitmap,
                    leaf_bitmap,
                    read_leaf_counts,
                    0,
                ),
                match children_decoding(
                    data@,
                    pos as int,
                    existence_bitmap,
                    leaf_bitmap,
                    read_leaf_counts,
                    i as int,
                ) {
                    Ok(rest) => total == Ok::<Slots, NodeDecodeError>(
                        slots_view(children@) + rest,
                    ),
                    Err(e) => total == Err::<Slots, NodeDecodeError>(e),
                },
            decreases 16 - i,
        {
            let ghost before = slots_view(children@);
            if (existence_bitmap >> i) & 1 == 1 {
                let is_leaf = (leaf_bitmap >> i) & 1 == 1;
                let (version, hash_at) = match deserialize_u64_varint(data, pos) {
                    Some(read) => read,
                    None => {
                        return Err(NodeDecodeError::UnexpectedEof);
                    },
                };
                if data.len() - hash_at < 32 {
                    return Err(NodeDecodeError::UnexpectedEof);
                }
                let hash = match HashValue::from_slice(
                    vstd::slice::slice_subrange(data, hash_at, hash_at + 32),
                ) {
                    Some(hash) => hash,
                    None => {
                        return Err(NodeDecodeError::UnexpectedEof);
                    },
                };
                let mut next = hash_at + 32;
                let node_type = if is_leaf {
                    NodeType::Leaf
                } else if read_leaf_counts {
                    let (count, behind) = match deserialize_u64_varint(data, next) {
                        Some(read) => read,
                        None => {
                            return Err(NodeDecodeError::UnexpectedEof);
                        },
                    };
                    if count > usize::MAX as u64 {
                        return Err(NodeDecodeError::LeafCountTooLarge);
                    }
                    next = behind;
                    if count == 0 {
                        NodeType::InternalLegacy
                    } else {
                        NodeType::Internal { leaf_count: count as usize }
                    }
                } else {
                    NodeType::InternalLegacy
                };
                let child = Child::new(hash, version, node_type);
                children.push(Some(child));
                pos = next;
                proof {
                    let rest = children_decoding(
                        data@,
                        pos as int,
                        existence_bitmap,
                        leaf_bitmap,
                        read_leaf_counts,
                        i as int + 1,
                    );
                    if rest is Ok {
                        assert(slots_view(children@) + rest->Ok_0 =~= before + (seq![Some(child@)]
                            + rest->Ok_0));
                    }
                }
            } else {
                children.push(None);
                proof {
                    let rest = children_decoding(
                        data@,
                        pos as int,
                        existence_bitmap,
                        leaf_bitmap,
                        read_leaf_counts,
                        i as int + 1,
                    );
                    if rest is Ok {
                        assert(slots_view(children@) + rest->Ok_0 =~= before + (seq![
                            None::<ChildView>,
                        ] + rest->Ok_0));
                    }
                }
            }
            i += 1;
        }
        assert(slots_view(children@) + Seq::<Option<ChildView>>::empty() =~= slots_view(children@));
        let (count, first) = scan_children(&children);
        if count == 0 {
            return Err(NodeDecodeError::NoChildren);
        }
        match first {
            Some(only) => {
                if count == 1 && only.is_leaf() {
                    return Err(NodeDecodeError::LoneLeaf);
                }
            },
            None => {},
        }
        let leaf_count = sum_leaf_counts(&children);
        let node = InternalNode { children, leaf_count, leaf_count_migration: read_leaf_counts };
        assert(node@ =~= slots_view(node.children@));
        Ok(node)
    }
}

/// Counting from the front gives the same number as counting from the back,
/// and the first child of a range is found from its front.
proof fn lemma_count_front(slots: Slots, start: int, width: int)
    requires
        width >= 1,
    ensures
        count_in(slots, start, width) == count_in(slots, start + 1, width - 1) + if slots[start]
            is Some {
            1nat
        } else {
            0nat
        },
    decreases width,
{
    if width > 1 {
        lemma_count_front(slots, start, width - 1);
        assert(count_in(slots, start + 1, width - 1) == count_in(slots, start + 1, width - 2) + if slots[start
            + width - 1] is Some {
            1nat
        } else {
            0nat
        });
    } else {
        assert(count_in(slots, start + 1, 0) == 0);
        assert(count_in(slots, start, 0) == 0);
    }
}

/// The slots of a list of optional children, as plain values.
pub open spec fn slots_view(children: Seq<Option<Child>>) -> Slots {
    Seq::new(
        children.len(),
        |i: int|
            match children[i] {
                Some(child) => Some(child@),
                None => None,
            },
    )
}

/// Adds up the leaf counts of the children.
fn sum_leaf_counts(children: &Vec<Option<Child>>) -> (r: Option<usize>)
    requires
        children@.len() == 16,
    ensures
        r == sum_leaf_count(slots_view(children@), 16),
{
    let mut sum: usize = 0;
    let mut i: usize = 0;
    let ghost slots = slots_view(children@);
    while i < 16
        invariant
            i <= 16,
            children@.len() == 16,
            slots == slots_view(children@),
            sum_leaf_count(slots, i as int) == Some(sum),
        decreases 16 - i,
    {
        match children[i] {
            None => {},
            Some(child) => {
                assert(slots[i as int] == Some(child@));
                match child.leaf_count() {
                    None => {
                        proof {
                            lemma_sum_unknown(slots, i as int + 1, 16);
                        }
                        return None;
                    },
                    Some(count) => match sum.checked_add(count) {
                        None => {
                            proof {
                                lemma_sum_unknown(slots, i as int + 1, 16);
                            }
                            return None;
                        },
                        Some(next) => {
                            sum = next;
                        },
                    },
                }
            },
        }
        i += 1;
    }
    Some(sum)
}

/// A sum of leaf counts that is not known for some slots is not known for
/// more slots either.
proof fn lemma_sum_unknown(slots: Slots, n: int, m: int)
    requires
        n <= m,
        sum_leaf_count(slots, n) is None,
    ensures
        sum_leaf_count(slots, m) is None,
    decreases m - n,
{
    if n < m {
        lemma_sum_unknown(slots, n, m - 1);
    }
}

} // verus!
