//! The key under which a node of the tree is stored.

use crate::bytes::{
    append, be_u64, be_u64_value, lemma_be_u64_roundtrip, u64_from_be, u64_to_be,
};
use crate::jellyfish_merkle::nibble::{packs, unpacked, Nibble, NibblePath, ROOT_NIBBLE_HEIGHT};
use crate::transaction::Version;
use vstd::prelude::*;

verus! {

/// The unique key of each node: the version at which the node was created,
/// and the path of nibbles that the node stands for in the tree.
#[derive(Debug, PartialEq, Eq, Hash)]
pub struct NodeKey {
    version: Version,
    nibble_path: NibblePath,
}

/// Why bytes were not read as a node key.
#[derive(Clone, Copy, Debug, PartialEq, Eq, Structural)]
pub enum NodeKeyDecodeError {
    /// The bytes end before the version and the number of nibbles.
    UnexpectedEof,
    /// The number of nibbles is larger than the tree is high.
    InvalidNumNibbles { num_nibbles: u8 },
    /// The number of bytes behind the number of nibbles is not the one that
    /// packs so many nibbles.
    LengthMismatch { num_nibbles: u8 },
    /// The low half of the last byte of a path of odd length is not zero.
    NonZeroPadding { padding: u8 },
}

/// The bytes of a node key: the version, most significant byte first, so
/// that keys are ordered as their versions are; the number of nibbles; and
/// the bytes that pack the path.
pub open spec fn node_key_encoding(version: u64, num_nibbles: int, bytes: Seq<u8>) -> Seq<u8> {
    be_u64(version) + seq![num_nibbles as u8] + bytes
}

/// What bytes are read as: the version, the number of nibbles and the bytes
/// that pack the path, or the reason for which they are refused.
pub open spec fn node_key_decoding(val: Seq<u8>) -> Result<(u64, int, Seq<u8>), NodeKeyDecodeError> {
    if val.len() < 9 {
        Err(NodeKeyDecodeError::UnexpectedEof)
    } else if val[8] > ROOT_NIBBLE_HEIGHT {
        Err(NodeKeyDecodeError::InvalidNumNibbles { num_nibbles: val[8] })
    } else if (val[8] + 1) / 2 != val.len() - 9 {
        Err(NodeKeyDecodeError::LengthMismatch { num_nibbles: val[8] })
    } else if val[8] % 2 == 1 && val.last() & 0x0f != 0 {
        Err(NodeKeyDecodeError::NonZeroPadding { padding: val.last() & 0x0f })
    } else {
        Ok((be_u64_value(val.subrange(0, 8)), val[8] as int, val.subrange(9, val.len() as int)))
    }
}

impl Clone for NodeKey {
    fn clone(&self) -> (r: Self)
        ensures
            r.spec_version() == self.spec_version(),
            r.spec_nibble_path()@ == self.spec_nibble_path()@,
            r.spec_nibble_path().spec_bytes() == self.spec_nibble_path().spec_bytes(),
            r.spec_nibble_path().spec_num_nibbles() == self.spec_nibble_path().spec_num_nibbles(),
    {
        NodeKey { version: self.version, nibble_path: self.nibble_path.clone() }
    }
}

impl NodeKey {
    /// The version at which the node was created.
    pub closed spec fn spec_version(&self) -> Version {
        self.version
    }

    /// The path of nibbles that the node stands for.
    pub closed spec fn spec_nibble_path(&self) -> NibblePath {
        self.nibble_path
    }

    /// The bytes of the key.
    pub open spec fn spec_encoding(&self) -> Seq<u8> {
        node_key_encoding(
            self.spec_version(),
            self.spec_nibble_path().spec_num_nibbles(),
            self.spec_nibble_path().spec_bytes(),
        )
    }

    /// Creates a new `NodeKey`.
    pub fn new(version: Version, nibble_path: NibblePath) -> (r: Self)
        ensures
            r.spec_version() == version,
            r.spec_nibble_path() == nibble_path,
    {
        NodeKey { version, nibble_path }
    }

    /// The key of a version and the empty path.
    pub fn new_empty_path(version: Version) -> (r: Self)
        ensures
            r.spec_version() == version,
            r.spec_nibble_path()@.len() == 0,
    {
        NodeKey { version, nibble_path: NibblePath::new(Vec::new()) }
    }

    /// Gets the version.
    pub fn version(&self) -> (r: Version)
        ensures
            r == self.spec_version(),
    {
        self.version
    }

    /// Gets the nibble path.
    pub fn nibble_path(&self) -> (r: &NibblePath)
        ensures
            *r == self.spec_nibble_path(),
    {
        &self.nibble_path
    }

    /// The key of the child at the nibble `n`, created at `version`. The path
    /// of this key is not as long as the tree is high.
    pub fn gen_child_node_key(&self, version: Version, n: Nibble) -> (r: Self)
        requires
            self.spec_nibble_path()@.len() < ROOT_NIBBLE_HEIGHT,
        ensures
            r.spec_version() == version,
            r.spec_nibble_path()@ == self.spec_nibble_path()@.push(n@),
    {
        let mut node_nibble_path = self.nibble_path.clone();
        node_nibble_path.push(n);
        NodeKey { version, nibble_path: node_nibble_path }
    }

    /// The key of the parent at the same version. This key is not the
    /// root's.
    pub fn gen_parent_node_key(&self) -> (r: Self)
        requires
            self.spec_nibble_path()@.len() > 0,
        ensures
            r.spec_version() == self.spec_version(),
            r.spec_nibble_path()@ == self.spec_nibble_path()@.drop_last(),
    {
        let mut node_nibble_path = self.nibble_path.clone();
        let _ = node_nibble_path.pop();
        NodeKey { version: self.version, nibble_path: node_nibble_path }
    }

    /// Sets the version to the given version.
    pub fn set_version(&mut self, version: Version)
        ensures
            final(self).spec_version() == version,
            final(self).spec_nibble_path() == old(self).spec_nibble_path(),
    {
        self.version = version;
    }

    /// The bytes under which the node is stored. Their order is that of the
    /// keys in memory.
    pub fn encode(&self) -> (r: Vec<u8>)
        ensures
            r@ == self.spec_encoding(),
            node_key_decoding(r@) == Ok::<(u64, int, Seq<u8>), NodeKeyDecodeError>(
                (
                    self.spec_version(),
                    self.spec_nibble_path().spec_num_nibbles(),
                    self.spec_nibble_path().spec_bytes(),
                ),
            ),
    {
        self.nibble_path.check_packed();
        proof {
            lemma_node_key_roundtrip(
                self.version,
                self.nibble_path.spec_num_nibbles(),
                self.nibble_path.spec_bytes(),
            );
        }
        let mut out: Vec<u8> = Vec::new();
        let version = u64_to_be(self.version);
        append(&mut out, &version);
        let num_nibbles = self.nibble_path.num_nibbles();
        out.push(num_nibbles as u8);
        append(&mut out, self.nibble_path.bytes());
        assert(out@ =~= self.spec_encoding());
        out
    }

    /// Reads a key from the bytes under which it was stored.
    pub fn decode(val: &[u8]) -> (r: Result<NodeKey, NodeKeyDecodeError>)
        ensures
            r is Ok <==> node_key_decoding(val@) is Ok,
            r is Ok ==> {
                let parts = node_key_decoding(val@)->Ok_0;
                &&& r->Ok_0.spec_version() == parts.0
                &&& r->Ok_0.spec_nibble_path().spec_num_nibbles() == parts.1
                &&& r->Ok_0.spec_nibble_path().spec_bytes() == parts.2
                &&& r->Ok_0.spec_nibble_path()@ == unpacked(parts.2, parts.1)
            },
            r is Err ==> r->Err_0 == node_key_decoding(val@)->Err_0,
    {
        if val.len() < 9 {
            return Err(NodeKeyDecodeError::UnexpectedEof);
        }
        let version = u64_from_be(val);
        let num_nibbles = val[8];
        if num_nibbles as usize > ROOT_NIBBLE_HEIGHT {
            return Err(NodeKeyDecodeError::InvalidNumNibbles { num_nibbles });
        }
        if (num_nibbles as usize + 1) / 2 != val.len() - 9 {
            return Err(NodeKeyDecodeError::LengthMismatch { num_nibbles });
        }
        let mut nibble_bytes: Vec<u8> = Vec::new();
        append(&mut nibble_bytes, vstd::slice::slice_subrange(val, 9, val.len()));
        assert(nibble_bytes@ =~= val@.subrange(9, val@.len() as int));
        let nibble_path = if num_nibbles % 2 == 0 {
            NibblePath::new(nibble_bytes)
        } else {
            let padding = val[val.len() - 1] & 0x0f;
            assert(nibble_bytes@.last() == val@.last());
            if padding != 0 {
                return Err(NodeKeyDecodeError::NonZeroPadding { padding });
            }
            NibblePath::new_odd(nibble_bytes)
        };
        Ok(NodeKey { version, nibble_path })
    }
}

/// Reading the bytes of a key gives the version and the path again, for a
/// path of odd length as for one of even length.
pub proof fn lemma_node_key_roundtrip(version: u64, num_nibbles: int, bytes: Seq<u8>)
    requires
        packs(bytes, num_nibbles),
    ensures
        node_key_decoding(node_key_encoding(version, num_nibbles, bytes)) == Ok::<
            (u64, int, Seq<u8>),
            NodeKeyDecodeError,
        >((version, num_nibbles, bytes)),
{
    let val = node_key_encoding(version, num_nibbles, bytes);
    lemma_be_u64_roundtrip(version);
    assert(val.subrange(0, 8) =~= be_u64(version));
    assert(val.subrange(9, val.len() as int) =~= bytes);
    assert(val[8] == num_nibbles as u8);
    if num_nibbles % 2 == 1 {
        assert(val.last() == bytes.last());
    }
}

} // verus!
