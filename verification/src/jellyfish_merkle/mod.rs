//! The node types of the Jellyfish Merkle tree: a versioned sparse Merkle
//! tree over 256-bit keys whose internal nodes have sixteen children.

pub mod bitmaps;
pub mod laws;
pub mod nibble;
pub mod node;
pub mod node_key;
pub mod node_type;
pub mod varint;
