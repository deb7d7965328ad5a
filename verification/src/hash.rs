//! 32-byte hash values and the SHA3-256 based hashers that the ledger uses.

use crate::bytes::append;
use vstd::prelude::*;
use vstd::string::StringSliceAdditionalSpecFns;

verus! {

/// The SHA3-256 digest of a byte string, as a mathematical function.
pub uninterp spec fn sha3_256(data: Seq<u8>) -> Seq<u8>;

/// Calls `tiny_keccak::Sha3::v256`, absorbs `data` with `Hasher::update` and
/// squeezes 32 bytes with `Hasher::finalize`. The contract names the digest:
/// the bytes returned are the SHA3-256 digest of `data`.
#[verifier::external_body]
fn sha3_256_digest(data: &[u8]) -> (out: [u8; 32])
    ensures
        out@ == sha3_256(data@),
{
    let mut out = [0u8; 32];
    let mut state = tiny_keccak::Sha3::v256();
    tiny_keccak::Hasher::update(&mut state, data);
    tiny_keccak::Hasher::finalize(state, &mut out);
    out
}

/// A 32-byte cryptographic hash.
#[derive(Clone, Copy, Debug, Eq, Hash)]
pub struct HashValue {
    pub hash: [u8; 32],
}

impl View for HashValue {
    type V = Seq<u8>;

    open spec fn view(&self) -> Seq<u8> {
        self.hash@
    }
}

impl PartialEq for HashValue {
    fn eq(&self, other: &Self) -> (r: bool) {
        let mut i: usize = 0;
        while i < 32
            invariant
                i <= 32,
                forall|j: int| 0 <= j < i ==> self.hash@[j] == other.hash@[j],
            decreases 32 - i,
        {
            if self.hash[i] != other.hash[i] {
                return false;
            }
            i += 1;
        }
        assert(self.hash@ =~= other.hash@);
        true
    }
}

impl vstd::std_specs::cmp::PartialEqSpecImpl for HashValue {
    open spec fn obeys_eq_spec() -> bool {
        true
    }

    open spec fn eq_spec(&self, other: &Self) -> bool {
        self@ == other@
    }
}

/// The hash that stands for an empty subtree of a sparse Merkle tree.
pub open spec fn sparse_merkle_placeholder() -> Seq<u8> {
    seq![0x53u8, 0x50u8, 0x41u8, 0x52u8, 0x53u8, 0x45u8, 0x5fu8, 0x4du8, 0x45u8, 0x52u8, 0x4bu8, 0x4cu8, 0x45u8, 0x5fu8, 0x50u8, 0x4cu8, 0x41u8, 0x43u8, 0x45u8, 0x48u8, 0x4fu8, 0x4cu8, 0x44u8, 0x45u8, 0x52u8, 0x5fu8, 0x48u8, 0x41u8, 0x53u8, 0x48u8, 0x00u8, 0x00u8]
}

/// The hash that stands for an empty subtree of an accumulator.
pub open spec fn accumulator_placeholder() -> Seq<u8> {
    seq![0x41u8, 0x43u8, 0x43u8, 0x55u8, 0x4du8, 0x55u8, 0x4cu8, 0x41u8, 0x54u8, 0x4fu8, 0x52u8, 0x5fu8, 0x50u8, 0x4cu8, 0x41u8, 0x43u8, 0x45u8, 0x48u8, 0x4fu8, 0x4cu8, 0x44u8, 0x45u8, 0x52u8, 0x5fu8, 0x48u8, 0x41u8, 0x53u8, 0x48u8, 0x00u8, 0x00u8, 0x00u8, 0x00u8]
}

/// The families of values that are hashed, each under a seed of its own, so
/// that a hash of one family is never taken for a hash of another.
#[derive(Clone, Copy, Debug, PartialEq, Eq, Structural)]
pub enum HashDomain {
    SparseMerkleInternal,
    SparseMerkleLeaf,
    EventAccumulator,
    TransactionAccumulator,
    RawTransaction,
    RawTransactionWithData,
    Transaction,
    TransactionInfo,
    ContractEvent,
    AccountStateBlob,
}

/// The text that every domain's seed starts with.
pub open spec fn domain_prefix() -> &'static str {
    "DIEM::"
}

impl HashDomain {
    /// The name under which the domain's seed is derived.
    pub open spec fn spec_name(self) -> &'static str {
        match self {
            HashDomain::SparseMerkleInternal => "SparseMerkleInternal",
            HashDomain::SparseMerkleLeaf => "SparseMerkleLeaf",
            HashDomain::EventAccumulator => "EventAccumulator",
            HashDomain::TransactionAccumulator => "TransactionAccumulator",
            HashDomain::RawTransaction => "RawTransaction",
            HashDomain::RawTransactionWithData => "RawTransactionWithData",
            HashDomain::Transaction => "Transaction",
            HashDomain::TransactionInfo => "TransactionInfo",
            HashDomain::ContractEvent => "ContractEvent",
            HashDomain::AccountStateBlob => "AccountStateBlob",
        }
    }

    /// The domain's seed: the digest of the prefix followed by the name.
    pub open spec fn seed(self) -> Seq<u8> {
        sha3_256(domain_prefix().spec_bytes() + self.spec_name().spec_bytes())
    }

    /// The hash of `data` in this domain: the digest of the seed followed by
    /// `data`.
    pub open spec fn hash_of(self, data: Seq<u8>) -> Seq<u8> {
        sha3_256(self.seed() + data)
    }

    /// The bytes that are signed for `data`: the seed followed by `data`.
    pub open spec fn signing_message(self, data: Seq<u8>) -> Seq<u8> {
        self.seed() + data
    }

    pub fn name(&self) -> (r: &'static str)
        ensures
            r == self.spec_name(),
    {
        match self {
            HashDomain::SparseMerkleInternal => "SparseMerkleInternal",
            HashDomain::SparseMerkleLeaf => "SparseMerkleLeaf",
            HashDomain::EventAccumulator => "EventAccumulator",
            HashDomain::TransactionAccumulator => "TransactionAccumulator",
            HashDomain::RawTransaction => "RawTransaction",
            HashDomain::RawTransactionWithData => "RawTransactionWithData",
            HashDomain::Transaction => "Transaction",
            HashDomain::TransactionInfo => "TransactionInfo",
            HashDomain::ContractEvent => "ContractEvent",
            HashDomain::AccountStateBlob => "AccountStateBlob",
        }
    }

    /// The seed followed by `data`, ready to be hashed or signed.
    pub fn message(&self, data: &[u8]) -> (r: Vec<u8>)
        ensures
            r@ == self.signing_message(data@),
    {
        let mut input: Vec<u8> = Vec::new();
        append(&mut input, "DIEM::".as_bytes());
        append(&mut input, self.name().as_bytes());
        let seed = HashValue::sha3_256_of(input.as_slice());
        let mut message: Vec<u8> = Vec::new();
        append(&mut message, &seed.hash);
        append(&mut message, data);
        message
    }

    /// Hashes `data` in this domain.
    pub fn hash(&self, data: &[u8]) -> (r: HashValue)
        ensures
            r@ == self.hash_of(data@),
    {
        let message = self.message(data);
        HashValue::sha3_256_of(message.as_slice())
    }
}

impl HashValue {
    /// The number of bytes in a hash.
    pub const LENGTH: usize = 32;

    pub fn new(hash: [u8; 32]) -> (r: Self)
        ensures
            r@ == hash@,
    {
        HashValue { hash }
    }

    /// The hash whose bytes are all zero.
    pub fn zero() -> (r: Self)
        ensures
            r@ == Seq::new(32, |i: int| 0u8),
    {
        let r = HashValue { hash: [0u8; 32] };
        assert(r@ =~= Seq::new(32, |i: int| 0u8));
        r
    }

    /// Reads a hash from exactly 32 bytes.
    pub fn from_slice(bytes: &[u8]) -> (r: Option<Self>)
        ensures
            r is Some <==> bytes@.len() == 32,
            r is Some ==> r->Some_0@ == bytes@,
    {
        if bytes.len() != 32 {
            return None;
        }
        let mut hash = [0u8; 32];
        let mut i: usize = 0;
        while i < 32
            invariant
                i <= 32,
                bytes@.len() == 32,
                forall|j: int| 0 <= j < i ==> hash@[j] == bytes@[j],
            decreases 32 - i,
        {
            hash[i] = bytes[i];
            i += 1;
        }
        assert(hash@ =~= bytes@);
        Some(HashValue { hash })
    }

    /// The SHA3-256 digest of `data`.
    pub fn sha3_256_of(data: &[u8]) -> (r: Self)
        ensures
            r@ == sha3_256(data@),
    {
        HashValue { hash: sha3_256_digest(data) }
    }

    /// The 32 bytes of the hash.
    pub fn to_vec(&self) -> (r: Vec<u8>)
        ensures
            r@ == self@,
    {
        let mut r: Vec<u8> = Vec::new();
        append(&mut r, &self.hash);
        r
    }

    /// The placeholder for an empty subtree of a sparse Merkle tree.
    pub fn sparse_merkle_placeholder() -> (r: Self)
        ensures
            r@ == sparse_merkle_placeholder(),
    {
        let r = HashValue { hash: [0x53, 0x50, 0x41, 0x52, 0x53, 0x45, 0x5f, 0x4d, 0x45, 0x52, 0x4b, 0x4c, 0x45, 0x5f, 0x50, 0x4c, 0x41, 0x43, 0x45, 0x48, 0x4f, 0x4c, 0x44, 0x45, 0x52, 0x5f, 0x48, 0x41, 0x53, 0x48, 0x00, 0x00] };
        assert(r@ =~= sparse_merkle_placeholder());
        r
    }

    /// The placeholder for an empty subtree of an accumulator.
    pub fn accumulator_placeholder() -> (r: Self)
        ensures
            r@ == accumulator_placeholder(),
    {
        let r = HashValue { hash: [0x41, 0x43, 0x43, 0x55, 0x4d, 0x55, 0x4c, 0x41, 0x54, 0x4f, 0x52, 0x5f, 0x50, 0x4c, 0x41, 0x43, 0x45, 0x48, 0x4f, 0x4c, 0x44, 0x45, 0x52, 0x5f, 0x48, 0x41, 0x53, 0x48, 0x00, 0x00, 0x00, 0x00] };
        assert(r@ =~= accumulator_placeholder());
        r
    }
}

} // verus!
