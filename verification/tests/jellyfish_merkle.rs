use diem_core::hash::{HashDomain, HashValue};
use diem_core::jellyfish_merkle::bitmaps::range_bitmaps;
use diem_core::jellyfish_merkle::nibble::{Nibble, NibblePath};
use diem_core::jellyfish_merkle::node::{LeafNode, Node};
use diem_core::jellyfish_merkle::node_key::{NodeKey, NodeKeyDecodeError};
use diem_core::jellyfish_merkle::node_type::{
    get_child_and_sibling_half_start, Child, InternalNode, NodeDecodeError, NodeType,
};
use diem_core::jellyfish_merkle::varint::{deserialize_u64_varint, serialize_u64_varint};

fn hash_of(byte: u8) -> HashValue {
    HashValue::new([byte; 32])
}

fn h(left: HashValue, right: HashValue) -> HashValue {
    let mut both = left.to_vec();
    both.extend(right.to_vec());
    HashDomain::SparseMerkleInternal.hash(&both)
}

fn leaf(byte: u8, version: u64) -> Child {
    Child::new(hash_of(byte), version, NodeType::Leaf)
}

fn internal(byte: u8, version: u64, leaf_count: usize) -> Child {
    Child::new(hash_of(byte), version, NodeType::Internal { leaf_count })
}

#[test]
fn varint_edges() {
    let mut out = vec![];
    serialize_u64_varint(0xFFFF_FFFF_FFFF_FFFF, &mut out);
    assert_eq!(out.len(), 9);
    assert!(out[..8].iter().all(|b| b & 0x80 != 0));
    assert_eq!(out, vec![0xff, 0xff, 0xff, 0xff, 0xff, 0xff, 0xff, 0xff, 0xff]);
    assert_eq!(
        deserialize_u64_varint(&out, 0),
        Some((0xFFFF_FFFF_FFFF_FFFF, 9))
    );

    let mut out = vec![];
    serialize_u64_varint(127, &mut out);
    assert_eq!(out, vec![0x7f]);

    let mut out = vec![];
    serialize_u64_varint(128, &mut out);
    assert_eq!(out, vec![0x80, 0x01]);

    let mut out = vec![];
    serialize_u64_varint(0, &mut out);
    assert_eq!(out, vec![0x00]);

    let mut out = vec![];
    serialize_u64_varint(1 << 56, &mut out);
    assert_eq!(out.len(), 9);
    assert_eq!(out[8], 1);
    assert_eq!(deserialize_u64_varint(&out, 0), Some((1 << 56, 9)));
}

#[test]
fn varint_round_trips_and_reads_at_a_place() {
    let numbers = [
        0u64,
        1,
        127,
        128,
        300,
        16383,
        16384,
        u32::MAX as u64,
        (1 << 56) - 1,
        1 << 56,
        u64::MAX - 1,
        u64::MAX,
    ];
    let mut out = vec![0xaa];
    for n in numbers {
        serialize_u64_varint(n, &mut out);
    }
    let mut pos = 1;
    for n in numbers {
        let (value, next) = deserialize_u64_varint(&out, pos).unwrap();
        assert_eq!(value, n);
        pos = next;
    }
    assert_eq!(pos, out.len());
    assert_eq!(deserialize_u64_varint(&out, pos), None);
    assert_eq!(deserialize_u64_varint(&[0x80], 0), None);
}

#[test]
fn nibble_path_push_and_pop() {
    let mut path = NibblePath::new(vec![]);
    assert!(path.is_empty());
    path.push(Nibble::new(0xa));
    assert_eq!(path.bytes(), &[0xa0]);
    assert_eq!(path.num_nibbles(), 1);
    path.push(Nibble::new(0x5));
    assert_eq!(path.bytes(), &[0xa5]);
    path.push(Nibble::new(0xf));
    assert_eq!(path.bytes(), &[0xa5, 0xf0]);
    assert_eq!(path.get_nibble(0).value(), 0xa);
    assert_eq!(path.get_nibble(1).value(), 0x5);
    assert_eq!(path.get_nibble(2).value(), 0xf);
    assert_eq!(path.pop().map(|n| n.value()), Some(0xf));
    assert_eq!(path.bytes(), &[0xa5]);
    assert_eq!(path.pop().map(|n| n.value()), Some(0x5));
    assert_eq!(path.bytes(), &[0xa0]);
    assert_eq!(path.pop().map(|n| n.value()), Some(0xa));
    assert!(path.pop().is_none());
    assert!(path.is_empty());
}

#[test]
fn node_key_round_trips_for_even_and_odd_paths() {
    let even = NodeKey::new(0x0102_0304_0506_0708, NibblePath::new(vec![0x12, 0x34]));
    let bytes = even.encode();
    assert_eq!(
        bytes,
        vec![1, 2, 3, 4, 5, 6, 7, 8, 4, 0x12, 0x34]
    );
    assert_eq!(NodeKey::decode(&bytes), Ok(even));

    let odd = NodeKey::new(u64::MAX, NibblePath::new_odd(vec![0x12, 0x30]));
    let bytes = odd.encode();
    assert_eq!(bytes[8], 3);
    assert_eq!(NodeKey::decode(&bytes), Ok(odd));

    let root = NodeKey::new_empty_path(7);
    let bytes = root.encode();
    assert_eq!(bytes.len(), 9);
    assert_eq!(NodeKey::decode(&bytes), Ok(root));
}

#[test]
fn node_key_decoding_refuses_malformed_bytes() {
    assert_eq!(
        NodeKey::decode(&[0; 8]),
        Err(NodeKeyDecodeError::UnexpectedEof)
    );
    let mut bytes = vec![0; 8];
    bytes.push(65);
    bytes.extend(vec![0; 33]);
    assert_eq!(
        NodeKey::decode(&bytes),
        Err(NodeKeyDecodeError::InvalidNumNibbles { num_nibbles: 65 })
    );
    assert_eq!(
        NodeKey::decode(&[0, 0, 0, 0, 0, 0, 0, 0, 3, 0x12]),
        Err(NodeKeyDecodeError::LengthMismatch { num_nibbles: 3 })
    );
    assert_eq!(
        NodeKey::decode(&[0, 0, 0, 0, 0, 0, 0, 0, 3, 0x12, 0x34]),
        Err(NodeKeyDecodeError::NonZeroPadding { padding: 4 })
    );
}

#[test]
fn node_key_parent_and_child() {
    let key = NodeKey::new(1, NibblePath::new(vec![0xab]));
    let child = key.gen_child_node_key(9, Nibble::new(0xc));
    assert_eq!(child.version(), 9);
    assert_eq!(child.nibble_path().bytes(), &[0xab, 0xc0]);
    let parent = child.gen_parent_node_key();
    assert_eq!(parent.version(), 9);
    assert_eq!(parent.nibble_path(), key.nibble_path());
}

#[test]
fn internal_hash_of_three_leaves_and_an_internal_child() {
    let (h0, h3, h8, h12) = (hash_of(1), hash_of(3), hash_of(8), hash_of(12));
    let node = InternalNode::new(vec![
        (Nibble::new(0), leaf(1, 10)),
        (Nibble::new(3), leaf(3, 11)),
        (Nibble::new(8), leaf(8, 12)),
        (Nibble::new(12), internal(12, 13, 5)),
    ]);
    let p = HashValue::sparse_merkle_placeholder();
    // the subtree over the slots 0..4 holds two leaves, at its two halves;
    // the subtree over 4..8 is empty; the leaf at 8 stands for 8..12; the
    // internal child at 12 stays three levels down
    let left = h(h(h0, h3), p);
    let right = h(h8, h(h(h12, p), p));
    assert_eq!(node.hash(), h(left, right));
    assert_eq!(node.leaf_count(), Some(8));
    assert_eq!(node.generate_bitmaps(), (0b0001_0001_0000_1001, 0b0000_0001_0000_1001));
}

#[test]
fn internal_hash_of_children_at_first_and_last_nibble() {
    let p = HashValue::sparse_merkle_placeholder();
    let leaves = InternalNode::new(vec![
        (Nibble::new(0), leaf(1, 1)),
        (Nibble::new(15), leaf(2, 1)),
    ]);
    assert_eq!(leaves.hash(), h(hash_of(1), hash_of(2)));
    let internals = InternalNode::new(vec![
        (Nibble::new(15), internal(2, 1, 2)),
        (Nibble::new(0), internal(1, 1, 2)),
    ]);
    assert_eq!(
        internals.hash(),
        h(
            h(h(h(hash_of(1), p), p), p),
            h(p, h(p, h(p, hash_of(2))))
        )
    );
}

#[test]
fn internal_hash_does_not_depend_on_the_order_of_children() {
    let a = InternalNode::new(vec![
        (Nibble::new(2), leaf(1, 1)),
        (Nibble::new(9), internal(2, 3, 4)),
        (Nibble::new(7), leaf(3, 5)),
    ]);
    let b = InternalNode::new(vec![
        (Nibble::new(7), leaf(3, 5)),
        (Nibble::new(2), leaf(1, 1)),
        (Nibble::new(9), internal(2, 3, 4)),
    ]);
    assert_eq!(a, b);
    assert_eq!(a.hash(), b.hash());
    // versions and leaf counts do not enter the hash
    let c = InternalNode::new(vec![
        (Nibble::new(2), leaf(1, 100)),
        (Nibble::new(9), internal(2, 300, 40)),
        (Nibble::new(7), leaf(3, 500)),
    ]);
    assert_eq!(a.hash(), c.hash());
}

#[test]
fn internal_node_round_trips_through_its_bytes() {
    let node = InternalNode::new(vec![
        (Nibble::new(0), leaf(1, 10)),
        (Nibble::new(3), leaf(3, u64::MAX)),
        (Nibble::new(12), internal(12, 300, 5)),
        (
            Nibble::new(13),
            Child::new(hash_of(13), 0, NodeType::InternalLegacy),
        ),
    ]);
    let mut bytes = vec![];
    node.serialize(&mut bytes, true);
    assert_eq!(&bytes[..4], &[0b0000_1001, 0b0011_0000, 0b0000_1001, 0]);
    let back = InternalNode::deserialize(&bytes, true).unwrap();
    assert_eq!(back.child(Nibble::new(0)), Some(&leaf(1, 10)));
    assert_eq!(back.child(Nibble::new(3)), Some(&leaf(3, u64::MAX)));
    assert_eq!(back.child(Nibble::new(12)), Some(&internal(12, 300, 5)));
    assert_eq!(
        back.child(Nibble::new(13)),
        Some(&Child::new(hash_of(13), 0, NodeType::InternalLegacy))
    );
    assert_eq!(back.child(Nibble::new(1)), None);
    assert_eq!(back.generate_bitmaps(), node.generate_bitmaps());
    assert_eq!(back.hash(), node.hash());
    assert_eq!(back.leaf_count(), None);

    // without leaf counts, internal children come back as legacy children
    let mut bytes = vec![];
    node.serialize(&mut bytes, false);
    let back = InternalNode::deserialize(&bytes, false).unwrap();
    assert_eq!(
        back.child(Nibble::new(12)),
        Some(&Child::new(hash_of(12), 300, NodeType::InternalLegacy))
    );
    assert_eq!(back.hash(), node.hash());
    assert_eq!(back.generate_bitmaps(), node.generate_bitmaps());
}

#[test]
fn internal_node_decoding_refuses_malformed_bytes() {
    assert_eq!(
        InternalNode::deserialize(&[], true),
        Err(NodeDecodeError::UnexpectedEof)
    );
    assert_eq!(
        InternalNode::deserialize(&[0, 0, 0, 0], true),
        Err(NodeDecodeError::NoChildren)
    );
    assert_eq!(
        InternalNode::deserialize(&[1, 0, 3, 0], true),
        Err(NodeDecodeError::ExtraLeaves {
            existing: 1,
            leaves: 3
        })
    );
    // a child is announced, but its bytes are missing
    assert_eq!(
        InternalNode::deserialize(&[1, 0, 0, 0, 5], true),
        Err(NodeDecodeError::UnexpectedEof)
    );
    // a single child that is a leaf
    let mut bytes = vec![1, 0, 1, 0, 5];
    bytes.extend([7u8; 32]);
    assert_eq!(
        InternalNode::deserialize(&bytes, true),
        Err(NodeDecodeError::LoneLeaf)
    );
}

#[test]
fn node_tags_and_round_trips() {
    assert_eq!(Node::new_null().encode().unwrap(), vec![0]);
    assert_eq!(Node::decode(&[0]), Ok(Node::Null));
    assert_eq!(Node::decode(&[]), Err(NodeDecodeError::EmptyInput));
    assert_eq!(
        Node::decode(&[9, 1, 2]),
        Err(NodeDecodeError::UnknownTag { unknown_tag: 9 })
    );
    assert_eq!(
        Node::new_null().hash(),
        HashValue::sparse_merkle_placeholder()
    );

    let children = vec![
        (Nibble::new(4), leaf(1, 10)),
        (Nibble::new(5), internal(2, 11, 3)),
    ];
    let with_counts = Node::new_internal(children.clone());
    let bytes = with_counts.encode().unwrap();
    assert_eq!(bytes[0], 3);
    assert_eq!(Node::decode(&bytes), Ok(with_counts));

    let legacy = Node::Internal(InternalNode::new_migration(children, false));
    let bytes = legacy.encode().unwrap();
    assert_eq!(bytes[0], 1);
    let back = Node::decode(&bytes).unwrap();
    assert_eq!(back.hash(), legacy.hash());
    assert_eq!(back.leaf_count(), None);

    let leaf_node = Node::new_leaf(hash_of(9), vec![1, 2, 3]);
    let bytes = leaf_node.encode().unwrap();
    assert_eq!(bytes[0], 2);
    assert_eq!(bytes.len(), 1 + 33 + 33 + 4);
    assert_eq!(Node::decode(&bytes), Ok(leaf_node.clone()));
    assert!(leaf_node.is_leaf());
    assert_eq!(leaf_node.node_type(), NodeType::Leaf);
    assert_eq!(leaf_node.leaf_count(), Some(1));
    assert_eq!(
        Node::decode(&[2, 1, 2]),
        Err(NodeDecodeError::InvalidLeaf)
    );
    // a leaf whose key is no hash
    assert_eq!(
        Node::decode(&[2, 1, 7, 1, 7, 0]),
        Err(NodeDecodeError::InvalidLeaf)
    );
}

#[test]
fn leaf_hash_is_that_of_key_and_value_hash() {
    let node = LeafNode::new(hash_of(9), vec![1, 2, 3]);
    assert_eq!(
        node.value_hash(),
        HashDomain::AccountStateBlob.hash(&[3, 1, 2, 3])
    );
    let mut both = node.account_key().to_vec();
    both.extend(node.value_hash().to_vec());
    assert_eq!(node.hash(), HashDomain::SparseMerkleLeaf.hash(&both));
    assert_ne!(node.hash(), HashValue::sha3_256_of(&both));
}

#[test]
fn half_starts_at_each_height() {
    let n = Nibble::new(11);
    assert_eq!(get_child_and_sibling_half_start(n, 3), (8, 0));
    assert_eq!(get_child_and_sibling_half_start(n, 2), (8, 12));
    assert_eq!(get_child_and_sibling_half_start(n, 1), (10, 8));
    assert_eq!(get_child_and_sibling_half_start(n, 0), (11, 10));
}

#[test]
fn child_with_siblings() {
    let (h0, h3, h8, h12) = (hash_of(1), hash_of(3), hash_of(8), hash_of(12));
    let node = InternalNode::new(vec![
        (Nibble::new(0), leaf(1, 10)),
        (Nibble::new(3), leaf(3, 11)),
        (Nibble::new(8), leaf(8, 12)),
        (Nibble::new(12), internal(12, 13, 5)),
    ]);
    let p = HashValue::sparse_merkle_placeholder();
    let key = NodeKey::new(20, NibblePath::new(vec![0xab]));

    // the child at 0: found at the height 1, where its half holds it alone
    let (child, siblings) = node.get_child_with_siblings(&key, Nibble::new(0));
    let child = child.unwrap();
    assert_eq!(child.version(), 10);
    assert_eq!(child.nibble_path().bytes(), &[0xab, 0x00]);
    assert_eq!(siblings.len(), 4);
    assert_eq!(siblings[0], h(h8, h(h(h12, p), p)));
    assert_eq!(siblings[1], p);
    assert_eq!(siblings[2], h3);
    assert_eq!(siblings[3], p);

    // nothing at 5: its half at the height 2 is empty
    let (child, siblings) = node.get_child_with_siblings(&key, Nibble::new(5));
    assert!(child.is_none());
    assert_eq!(siblings.len(), 4);
    assert_eq!(siblings[1], h(h0, h3));

    // nothing at 9, but the leaf at 8 stands for the whole half
    let (child, siblings) = node.get_child_with_siblings(&key, Nibble::new(9));
    let child = child.unwrap();
    assert_eq!(child.version(), 12);
    assert_eq!(child.nibble_path().bytes(), &[0xab, 0x80]);
    assert_eq!(siblings[0], h(h(h0, h3), p));
    assert_eq!(siblings[1], h(h(h12, p), p));

    // the internal child at 12 is found at the height 0
    let (child, siblings) = node.get_child_with_siblings(&key, Nibble::new(12));
    let child = child.unwrap();
    assert_eq!(child.version(), 13);
    assert_eq!(child.nibble_path().bytes(), &[0xab, 0xc0]);
    assert_eq!(siblings[1], h8);
    assert_eq!(siblings[2], p);
    assert_eq!(siblings[3], p);
}

#[test]
fn bitmaps_of_a_range() {
    let bitmaps = (0b0001_0001_0000_1001u16, 0b0000_0001_0000_1001u16);
    assert_eq!(range_bitmaps(0, 16, bitmaps), bitmaps);
    assert_eq!(range_bitmaps(0, 4, bitmaps), (0b1001, 0b1001));
    assert_eq!(range_bitmaps(4, 4, bitmaps), (0, 0));
    assert_eq!(
        range_bitmaps(8, 8, bitmaps),
        (0b0001_0001_0000_0000, 0b0000_0001_0000_0000)
    );
    assert_eq!(range_bitmaps(12, 1, bitmaps), (0b0001_0000_0000_0000, 0));
    assert_eq!(range_bitmaps(15, 1, (0xffff, 0xffff)), (0x8000, 0x8000));
}
