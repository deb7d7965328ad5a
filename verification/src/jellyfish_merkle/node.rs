//! The leaf node of the tree, and the node as the tree stores it.

use crate::bytes::append;
use crate::codec::{
    byte_string, lemma_reads_split, lemma_uleb_read_complete, reads, uleb128, write_byte_string,
};
use crate::hash::{sparse_merkle_placeholder, HashDomain, HashValue};
use crate::jellyfish_merkle::nibble::Nibble;
use crate::jellyfish_merkle::node_type::{
    internal_decoding, internal_encoding, merkle, nibbles_distinct, slots_of, slots_wf,
    sum_leaf_count, Child, InternalNode, NodeDecodeError, NodeType,
};
use vstd::prelude::*;

verus! {

/// The longest byte string that the canonical encoding takes.
pub const MAX_SEQUENCE_LENGTH: usize = 0x7fff_ffff;

/// The canonical encoding of a leaf: its account key, the hash of its value
/// and its value, each as a byte string.
pub open spec fn leaf_encoding(account_key: Seq<u8>, value_hash: Seq<u8>, value: Seq<u8>) -> Seq<u8> {
    byte_string(account_key) + byte_string(value_hash) + byte_string(value)
}

/// Whether a byte string is no longer than the canonical encoding takes.
pub open spec fn fits(bytes: Seq<u8>) -> bool {
    bytes.len() <= MAX_SEQUENCE_LENGTH
}

/// Whether each of three byte strings is no longer than the canonical
/// encoding takes.
pub open spec fn all_fit(a: Seq<u8>, b: Seq<u8>, c: Seq<u8>) -> bool {
    fits(a) && fits(b) && fits(c)
}

/// Whether bytes are the canonical encoding of a leaf.
pub open spec fn is_leaf_encoding(bytes: Seq<u8>) -> bool {
    exists|account_key: Seq<u8>, value_hash: Seq<u8>, value: Seq<u8>|
        fits(account_key) && fits(value_hash) && fits(value) && bytes == #[trigger] leaf_encoding(
            account_key,
            value_hash,
            value,
        )
}

/// A byte string that stands at a place is the only one that stands there.
pub proof fn lemma_byte_string_unique(data: Seq<u8>, pos: int, a: Seq<u8>, b: Seq<u8>)
    requires
        reads(data, pos, byte_string(a)),
        reads(data, pos, byte_string(b)),
    ensures
        a == b,
{
    lemma_reads_split(data, pos, uleb128(a.len()), a);
    lemma_reads_split(data, pos, uleb128(b.len()), b);
    lemma_uleb_read_complete(data, pos, a.len(), true);
    lemma_uleb_read_complete(data, pos, b.len(), true);
    assert(a =~= b);
}

/// The canonical encoding of a leaf is that of one leaf only.
pub proof fn lemma_leaf_encoding_unique(
    a: Seq<u8>,
    b: Seq<u8>,
    c: Seq<u8>,
    x: Seq<u8>,
    y: Seq<u8>,
    z: Seq<u8>,
)
    requires
        leaf_encoding(a, b, c) == leaf_encoding(x, y, z),
    ensures
        a == x,
        b == y,
        c == z,
{
    let data = leaf_encoding(a, b, c);
    assert(reads(data, 0, data)) by {
        assert(data.subrange(0, data.len() as int) =~= data);
    }
    lemma_reads_split(data, 0, byte_string(a) + byte_string(b), byte_string(c));
    lemma_reads_split(data, 0, byte_string(a), byte_string(b));
    lemma_reads_split(data, 0, byte_string(x) + byte_string(y), byte_string(z));
    lemma_reads_split(data, 0, byte_string(x), byte_string(y));
    lemma_byte_string_unique(data, 0, a, x);
    lemma_byte_string_unique(data, byte_string(a).len() as int, b, y);
    lemma_byte_string_unique(data, (byte_string(a) + byte_string(b)).len() as int, c, z);
}

/// Whether bytes are the canonical encoding of a leaf whose account key and
/// value hash are as long as hashes are.
pub open spec fn is_leaf_body(bytes: Seq<u8>) -> bool {
    exists|account_key: Seq<u8>, value_hash: Seq<u8>, value: Seq<u8>|
        account_key.len() == 32 && value_hash.len() == 32 && fits(value) && bytes
            == #[trigger] leaf_encoding(account_key, value_hash, value)
}

/// Calls `bcs::to_bytes` on the three byte strings as a tuple. Its source
/// writes the fields of a tuple in turn without a length, and each byte
/// string as its length in base 128 and its bytes; it fails on a byte string
/// of more than `MAX_SEQUENCE_LENGTH` bytes.
#[verifier::external_body]
fn bcs_leaf_to_bytes(account_key: &[u8], value_hash: &[u8], value: &[u8]) -> (r: Option<Vec<u8>>)
    ensures
        r is Some <==> all_fit(account_key@, value_hash@, value@),
        r is Some ==> r->Some_0@ == leaf_encoding(account_key@, value_hash@, value@),
{
    bcs::to_bytes(&(account_key, value_hash, value)).ok()
}

/// Calls `bcs::from_bytes` for a tuple of three byte strings. Its source
/// takes canonical encodings only: a length is in its shortest form and at
/// most `MAX_SEQUENCE_LENGTH`, and no byte is left behind the third string.
#[verifier::external_body]
fn bcs_leaf_from_bytes(bytes: &[u8]) -> (r: Option<(Vec<u8>, Vec<u8>, Vec<u8>)>)
    ensures
        r is Some <==> is_leaf_encoding(bytes@),
        r is Some ==> bytes@ == leaf_encoding(r->Some_0.0@, r->Some_0.1@, r->Some_0.2@),
        r is Some ==> all_fit(r->Some_0.0@, r->Some_0.1@, r->Some_0.2@),
{
    bcs::from_bytes::<(Vec<u8>, Vec<u8>, Vec<u8>)>(bytes).ok()
}

/// The hash of the value of a leaf: that of the value as a byte string,
/// among account states.
pub open spec fn value_hash_of(value: Seq<u8>) -> Seq<u8> {
    HashDomain::AccountStateBlob.hash_of(byte_string(value))
}

/// The hash of a leaf with the account key and the hash of the value given.
pub open spec fn leaf_hash(account_key: Seq<u8>, value_hash: Seq<u8>) -> Seq<u8> {
    HashDomain::SparseMerkleLeaf.hash_of(account_key + value_hash)
}

/// A leaf: an account.
#[derive(Debug, PartialEq, Eq)]
pub struct LeafNode {
    /// The hashed address of the account.
    pub account_key: HashValue,
    /// The hash of the value.
    pub value_hash: HashValue,
    /// The value stored for the account.
    pub value: Vec<u8>,
}

impl Clone for LeafNode {
    fn clone(&self) -> (r: Self)
        ensures
            r.account_key@ == self.account_key@,
            r.value_hash@ == self.value_hash@,
            r.value@ == self.value@,
    {
        LeafNode {
            account_key: self.account_key,
            value_hash: self.value_hash,
            value: self.value.clone(),
        }
    }
}

impl LeafNode {
    /// Creates a new leaf node.
    pub fn new(account_key: HashValue, value: Vec<u8>) -> (r: Self)
        ensures
            r.account_key == account_key,
            r.value == value,
            r.value_hash@ == value_hash_of(value@),
    {
        let mut bytes: Vec<u8> = Vec::new();
        write_byte_string(&mut bytes, value.as_slice());
        assert(bytes@ =~= byte_string(value@));
        let value_hash = HashDomain::AccountStateBlob.hash(bytes.as_slice());
        LeafNode { account_key, value_hash, value }
    }

    /// Gets the account key, the hashed account address.
    pub fn account_key(&self) -> (r: HashValue)
        ensures
            r == self.account_key,
    {
        self.account_key
    }

    /// Gets the associated value itself.
    pub fn value(&self) -> (r: &Vec<u8>)
        ensures
            *r == self.value,
    {
        &self.value
    }

    /// Gets the associated value hash.
    pub fn value_hash(&self) -> (r: HashValue)
        ensures
            r == self.value_hash,
    {
        self.value_hash
    }

    /// The hash of the leaf: that of its account key and the hash of its
    /// value, among leaves.
    pub fn hash(&self) -> (r: HashValue)
        ensures
            r@ == leaf_hash(self.account_key@, self.value_hash@),
    {
        let mut both: Vec<u8> = Vec::new();
        append(&mut both, &self.account_key.hash);
        append(&mut both, &self.value_hash.hash);
        HashDomain::SparseMerkleLeaf.hash(both.as_slice())
    }
}

/// The tag of the empty tree in the bytes of a node.
pub const TAG_NULL: u8 = 0;

/// The tag of an internal node that is written without leaf counts.
pub const TAG_INTERNAL_LEGACY: u8 = 1;

/// The tag of a leaf.
pub const TAG_LEAF: u8 = 2;

/// The tag of an internal node that is written with leaf counts.
pub const TAG_INTERNAL: u8 = 3;

/// The node of the tree as it is stored.
#[derive(Debug, PartialEq, Eq)]
pub enum Node {
    /// The empty tree.
    Null,
    /// An internal node.
    Internal(InternalNode),
    /// A leaf.
    Leaf(LeafNode),
}

impl Clone for Node {
    fn clone(&self) -> (r: Self)
        ensures
            r.spec_hash() == self.spec_hash(),
            r.spec_encoding() == self.spec_encoding(),
    {
        match self {
            Node::Null => Node::Null,
            Node::Internal(node) => Node::Internal(node.clone()),
            Node::Leaf(node) => Node::Leaf(node.clone()),
        }
    }
}

impl From<InternalNode> for Node {
    fn from(node: InternalNode) -> (r: Node) {
        Node::Internal(node)
    }
}

impl vstd::std_specs::convert::FromSpecImpl<InternalNode> for Node {
    open spec fn obeys_from_spec() -> bool {
        true
    }

    open spec fn from_spec(node: InternalNode) -> Node {
        Node::Internal(node)
    }
}

impl From<LeafNode> for Node {
    fn from(node: LeafNode) -> (r: Node) {
        Node::Leaf(node)
    }
}

impl vstd::std_specs::convert::FromSpecImpl<LeafNode> for Node {
    open spec fn obeys_from_spec() -> bool {
        true
    }

    open spec fn from_spec(node: LeafNode) -> Node {
        Node::Leaf(node)
    }
}

impl Node {
    /// The hash of the node: the placeholder for the empty tree.
    pub open spec fn spec_hash(&self) -> Seq<u8> {
        match self {
            Node::Null => sparse_merkle_placeholder(),
            Node::Internal(node) => merkle(node@, 0, 16),
            Node::Leaf(node) => leaf_hash(node.account_key@, node.value_hash@),
        }
    }

    /// The bytes of the node: a tag, and behind it the bytes of an internal
    /// node or the canonical encoding of a leaf. An internal node is written
    /// with the leaf counts of its children where it is marked so.
    pub open spec fn spec_encoding(&self) -> Seq<u8> {
        match self {
            Node::Null => seq![TAG_NULL],
            Node::Internal(node) => if node.spec_leaf_count_migration() {
                seq![TAG_INTERNAL] + internal_encoding(node@, true)
            } else {
                seq![TAG_INTERNAL_LEGACY] + internal_encoding(node@, false)
            },
            Node::Leaf(node) => seq![TAG_LEAF] + leaf_encoding(
                node.account_key@,
                node.value_hash@,
                node.value@,
            ),
        }
    }

    /// Creates the `Null` variant.
    pub fn new_null() -> (r: Self)
        ensures
            r is Null,
    {
        Node::Null
    }

    /// Creates the `Internal` variant.
    pub fn new_internal(children: Vec<(Nibble, Child)>) -> (r: Self)
        requires
            nibbles_distinct(children@),
            slots_wf(slots_of(children@)),
        ensures
            r is Internal,
            r->Internal_0@ == slots_of(children@),
            r->Internal_0.spec_leaf_count_migration(),
    {
        Node::Internal(InternalNode::new(children))
    }

    /// Creates the `Leaf` variant.
    pub fn new_leaf(account_key: HashValue, value: Vec<u8>) -> (r: Self)
        ensures
            r is Leaf,
            r->Leaf_0.account_key == account_key,
            r->Leaf_0.value == value,
            r->Leaf_0.value_hash@ == value_hash_of(value@),
    {
        Node::Leaf(LeafNode::new(account_key, value))
    }

    /// Returns `true` if the node is a leaf node.
    pub fn is_leaf(&self) -> (r: bool)
        ensures
            r == (self is Leaf),
    {
        match self {
            Node::Leaf(_) => true,
            _ => false,
        }
    }

    /// What kind of child this node makes. The empty tree is no child.
    pub fn node_type(&self) -> (r: NodeType)
        requires
            !(self is Null),
        ensures
            r == match *self {
                Node::Null => NodeType::Leaf,
                Node::Leaf(_) => NodeType::Leaf,
                Node::Internal(node) => match sum_leaf_count(node@, 16) {
                    Some(leaf_count) => NodeType::Internal { leaf_count },
                    None => NodeType::InternalLegacy,
                },
            },
    {
        match self {
            Node::Null => NodeType::Leaf,
            Node::Leaf(_) => NodeType::Leaf,
            Node::Internal(n) => n.node_type(),
        }
    }

    /// Returns leaf count if known.
    pub fn leaf_count(&self) -> (r: Option<usize>)
        ensures
            r == match *self {
                Node::Null => Some(0usize),
                Node::Leaf(_) => Some(1usize),
                Node::Internal(node) => sum_leaf_count(node@, 16),
            },
    {
        match self {
            Node::Null => Some(0),
            Node::Leaf(_) => Some(1),
            Node::Internal(internal_node) => internal_node.leaf_count(),
        }
    }

    /// The bytes under which the node is stored. A leaf whose value is
    /// longer than the canonical encoding takes is refused.
    pub fn encode(&self) -> (r: Result<Vec<u8>, NodeDecodeError>)
        ensures
            r is Ok <==> !(self is Leaf && self->Leaf_0.value@.len() > MAX_SEQUENCE_LENGTH),
            r is Ok ==> r->Ok_0@ == self.spec_encoding(),
            r is Err ==> r->Err_0 == NodeDecodeError::InvalidLeaf,
    {
        let mut out: Vec<u8> = Vec::new();
        match self {
            Node::Null => {
                out.push(TAG_NULL);
            },
            Node::Internal(internal_node) => {
                let persist_leaf_count = internal_node.leaf_count_migration();
                let tag = if persist_leaf_count {
                    TAG_INTERNAL
                } else {
                    TAG_INTERNAL_LEGACY
                };
                out.push(tag);
                internal_node.serialize(&mut out, persist_leaf_count);
            },
            Node::Leaf(leaf_node) => {
                out.push(TAG_LEAF);
                match bcs_leaf_to_bytes(
                    &leaf_node.account_key.hash,
                    &leaf_node.value_hash.hash,
                    leaf_node.value.as_slice(),
                ) {
                    Some(bytes) => {
                        append(&mut out, bytes.as_slice());
                    },
                    None => {
                        return Err(NodeDecodeError::InvalidLeaf);
                    },
                }
            },
        }
        assert(out@ =~= self.spec_encoding());
        Ok(out)
    }

    /// Computes the hash of nodes.
    pub fn hash(&self) -> (r: HashValue)
        ensures
            r@ == self.spec_hash(),
    {
        match self {
            Node::Null => HashValue::sparse_merkle_placeholder(),
            Node::Internal(internal_node) => internal_node.hash(),
            Node::Leaf(leaf_node) => leaf_node.hash(),
        }
    }

    /// The leaf that three byte strings make, where there are three and the
    /// first two are as long as hashes are.
    pub fn leaf_of(parts: Option<(Vec<u8>, Vec<u8>, Vec<u8>)>) -> (r: Result<Node, NodeDecodeError>)
        ensures
            r is Ok <==> parts is Some && parts->Some_0.0@.len() == 32 && parts->Some_0.1@.len()
                == 32,
            r is Ok ==> r->Ok_0 is Leaf && r->Ok_0->Leaf_0.account_key@ == parts->Some_0.0@
                && r->Ok_0->Leaf_0.value_hash@ == parts->Some_0.1@ && r->Ok_0->Leaf_0.value
                == parts->Some_0.2,
            r is Err ==> r->Err_0 == NodeDecodeError::InvalidLeaf,
    {
        match parts {
            Some((account_key, value_hash, value)) => {
                match HashValue::from_slice(account_key.as_slice()) {
                    Some(account_key) => match HashValue::from_slice(value_hash.as_slice()) {
                        Some(value_hash) => Ok(Node::Leaf(LeafNode { account_key, value_hash, value })),
                        None => Err(NodeDecodeError::InvalidLeaf),
                    },
                    None => Err(NodeDecodeError::InvalidLeaf),
                }
            },
            None => Err(NodeDecodeError::InvalidLeaf),
        }
    }

    /// Reads a node from the bytes under which it was stored.
    pub fn decode(val: &[u8]) -> (r: Result<Node, NodeDecodeError>)
        ensures
            val@.len() == 0 ==> r == Err::<Node, NodeDecodeError>(NodeDecodeError::EmptyInput),
            val@.len() > 0 && val@[0] > 3 ==> r == Err::<Node, NodeDecodeError>(
                NodeDecodeError::UnknownTag { unknown_tag: val@[0] },
            ),
            val@.len() > 0 && val@[0] == TAG_NULL ==> r == Ok::<Node, NodeDecodeError>(Node::Null),
            val@.len() > 0 && (val@[0] == TAG_INTERNAL || val@[0] == TAG_INTERNAL_LEGACY) ==> {
                let counts = val@[0] == TAG_INTERNAL;
                let decoding = internal_decoding(val@.subrange(1, val@.len() as int), counts);
                match decoding {
                    Ok(slots) => r is Ok && r->Ok_0 is Internal && r->Ok_0->Internal_0@ == slots
                        && r->Ok_0->Internal_0.spec_leaf_count_migration() == counts,
                    Err(e) => r == Err::<Node, NodeDecodeError>(e),
                }
            },
            val@.len() > 0 && val@[0] == TAG_LEAF ==> {
                let body = val@.subrange(1, val@.len() as int);
                &&& r is Ok <==> is_leaf_body(body)
                &&& r is Ok ==> r->Ok_0 is Leaf && body == leaf_encoding(
                    r->Ok_0->Leaf_0.account_key@,
                    r->Ok_0->Leaf_0.value_hash@,
                    r->Ok_0->Leaf_0.value@,
                )
                &&& r is Err ==> r->Err_0 == NodeDecodeError::InvalidLeaf
            },
    {
        if val.len() == 0 {
            return Err(NodeDecodeError::EmptyInput);
        }
        let tag = val[0];
        let body = vstd::slice::slice_subrange(val, 1, val.len());
        if tag == TAG_NULL {
            Ok(Node::Null)
        } else if tag == TAG_INTERNAL_LEGACY {
            match InternalNode::deserialize(body, false) {
                Ok(node) => Ok(Node::Internal(node)),
                Err(e) => Err(e),
            }
        } else if tag == TAG_INTERNAL {
            match InternalNode::deserialize(body, true) {
                Ok(node) => Ok(Node::Internal(node)),
                Err(e) => Err(e),
            }
        } else if tag == TAG_LEAF {
            let parts = bcs_leaf_from_bytes(body);
            proof {
                if is_leaf_body(body@) {
                    let (k, h, v) = choose|k: Seq<u8>, h: Seq<u8>, v: Seq<u8>|
                        k.len() == 32 && h.len() == 32 && fits(v) && body@ == #[trigger] leaf_encoding(
                            k,
                            h,
                            v,
                        );
                    assert(fits(k) && fits(h));
                    assert(is_leaf_encoding(body@));
                    lemma_leaf_encoding_unique(
                        parts->Some_0.0@,
                        parts->Some_0.1@,
                        parts->Some_0.2@,
                        k,
                        h,
                        v,
                    );
                }
            }
            Self::leaf_of(parts)
        } else {
            Err(NodeDecodeError::UnknownTag { unknown_tag: tag })
        }
    }
}

} // verus!
