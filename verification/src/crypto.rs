//! Ed25519 keys and signatures, single and with a threshold.

use vstd::prelude::*;

verus! {

/// Whether `signature` is a valid Ed25519 signature of `message` under
/// `public_key`, by the strict rules: a key that is no curve point or is of
/// small order, and a signature that is not in canonical form, are invalid.
pub uninterp spec fn ed25519_valid(
    public_key: Seq<u8>,
    message: Seq<u8>,
    signature: Seq<u8>,
) -> bool;

/// The Ed25519 signature of `message` under `private_key`.
pub uninterp spec fn ed25519_signature(private_key: Seq<u8>, message: Seq<u8>) -> Seq<u8>;

/// The Ed25519 public key that belongs to `private_key`.
pub uninterp spec fn ed25519_public(private_key: Seq<u8>) -> Seq<u8>;

/// Calls `ed25519_dalek::VerifyingKey::verify_strict` on the key that
/// `VerifyingKey::from_bytes` reads and the signature that
/// `Signature::from_bytes` reads; bytes that are no key verify nothing. The
/// contract names the outcome.
#[verifier::external_body]
fn ed25519_verify(public_key: &[u8; 32], message: &[u8], signature: &[u8; 64]) -> (r: bool)
    ensures
        r == ed25519_valid(public_key@, message@, signature@),
{
    match ed25519_dalek::VerifyingKey::from_bytes(public_key) {
        Ok(key) => key.verify_strict(
            message,
            &ed25519_dalek::Signature::from_bytes(signature),
        ).is_ok(),
        Err(_) => false,
    }
}

/// Calls `ed25519_dalek::Signer::sign` on the key that
/// `SigningKey::from_bytes` makes of the 32 secret bytes. Signing draws no
/// randomness; the contract names the signature.
#[verifier::external_body]
fn ed25519_sign(private_key: &[u8; 32], message: &[u8]) -> (r: [u8; 64])
    ensures
        r@ == ed25519_signature(private_key@, message@),
{
    let key = ed25519_dalek::SigningKey::from_bytes(private_key);
    ed25519_dalek::Signer::sign(&key, message).to_bytes()
}

/// Calls `ed25519_dalek::SigningKey::verifying_key` on the key that
/// `SigningKey::from_bytes` makes of the 32 secret bytes. The contract names
/// the public key.
#[verifier::external_body]
fn ed25519_derive_public(private_key: &[u8; 32]) -> (r: [u8; 32])
    ensures
        r@ == ed25519_public(private_key@),
{
    ed25519_dalek::SigningKey::from_bytes(private_key).verifying_key().to_bytes()
}

/// An Ed25519 public key: 32 bytes.
#[derive(Clone, Copy, Debug, PartialEq, Eq)]
pub struct Ed25519PublicKey {
    pub bytes: [u8; 32],
}

/// An Ed25519 signature: 64 bytes.
#[derive(Clone, Copy, Debug, PartialEq, Eq)]
pub struct Ed25519Signature {
    pub bytes: [u8; 64],
}

/// An Ed25519 private key: 32 secret bytes.
#[derive(Clone, Copy)]
pub struct Ed25519PrivateKey {
    pub bytes: [u8; 32],
}

impl View for Ed25519PublicKey {
    type V = Seq<u8>;

    open spec fn view(&self) -> Seq<u8> {
        self.bytes@
    }
}

impl View for Ed25519Signature {
    type V = Seq<u8>;

    open spec fn view(&self) -> Seq<u8> {
        self.bytes@
    }
}

impl View for Ed25519PrivateKey {
    type V = Seq<u8>;

    open spec fn view(&self) -> Seq<u8> {
        self.bytes@
    }
}

impl Ed25519PrivateKey {
    pub fn new(bytes: [u8; 32]) -> (r: Self)
        ensures
            r@ == bytes@,
    {
        Ed25519PrivateKey { bytes }
    }

    /// The public key that belongs to this private key.
    pub fn public_key(&self) -> (r: Ed25519PublicKey)
        ensures
            r@ == ed25519_public(self@),
    {
        Ed25519PublicKey { bytes: ed25519_derive_public(&self.bytes) }
    }

    /// Signs `message`.
    pub fn sign(&self, message: &[u8]) -> (r: Ed25519Signature)
        ensures
            r@ == ed25519_signature(self@, message@),
    {
        Ed25519Signature { bytes: ed25519_sign(&self.bytes, message) }
    }
}

impl Ed25519PublicKey {
    pub fn new(bytes: [u8; 32]) -> (r: Self)
        ensures
            r@ == bytes@,
    {
        Ed25519PublicKey { bytes }
    }

    /// Whether `signature` is valid for `message` under this key.
    pub fn verifies(&self, message: &[u8], signature: &Ed25519Signature) -> (r: bool)
        ensures
            r == ed25519_valid(self@, message@, signature@),
    {
        ed25519_verify(&self.bytes, message, &signature.bytes)
    }
}

impl Ed25519Signature {
    pub fn new(bytes: [u8; 64]) -> (r: Self)
        ensures
            r@ == bytes@,
    {
        Ed25519Signature { bytes }
    }
}

/// Up to 32 public keys and the number of them that must sign.
#[derive(Debug, PartialEq, Eq)]
pub struct MultiEd25519PublicKey {
    pub public_keys: Vec<Ed25519PublicKey>,
    pub threshold: u8,
}

/// One signature of a threshold signature, with the position of its key in
/// the key bundle.
#[derive(Clone, Copy, Debug, PartialEq, Eq)]
pub struct IndexedSignature {
    pub index: u8,
    pub signature: Ed25519Signature,
}

/// Signatures of some of the keys of a bundle, in the order of their keys.
#[derive(Debug, PartialEq, Eq)]
pub struct MultiEd25519Signature {
    pub signatures: Vec<IndexedSignature>,
}

impl Clone for MultiEd25519PublicKey {
    fn clone(&self) -> (r: Self)
        ensures
            r.public_keys@ == self.public_keys@,
            r.threshold == self.threshold,
    {
        let mut public_keys: Vec<Ed25519PublicKey> = Vec::new();
        let mut i: usize = 0;
        while i < self.public_keys.len()
            invariant
                i <= self.public_keys.len(),
                public_keys@ == self.public_keys@.take(i as int),
            decreases self.public_keys.len() - i,
        {
            public_keys.push(self.public_keys[i]);
            i += 1;
            assert(public_keys@ =~= self.public_keys@.take(i as int));
        }
        assert(self.public_keys@.take(i as int) =~= self.public_keys@);
        MultiEd25519PublicKey { public_keys, threshold: self.threshold }
    }
}

impl Clone for MultiEd25519Signature {
    fn clone(&self) -> (r: Self)
        ensures
            r.signatures@ == self.signatures@,
    {
        let mut signatures: Vec<IndexedSignature> = Vec::new();
        let mut i: usize = 0;
        while i < self.signatures.len()
            invariant
                i <= self.signatures.len(),
                signatures@ == self.signatures@.take(i as int),
            decreases self.signatures.len() - i,
        {
            signatures.push(self.signatures[i]);
            i += 1;
            assert(signatures@ =~= self.signatures@.take(i as int));
        }
        assert(self.signatures@.take(i as int) =~= self.signatures@);
        MultiEd25519Signature { signatures }
    }
}

/// Whether the first `n` signatures each belong to a key of the bundle, come
/// in strictly rising order of their keys, and are valid for `message`.
pub open spec fn signatures_valid(
    keys: Seq<Ed25519PublicKey>,
    signatures: Seq<IndexedSignature>,
    message: Seq<u8>,
    n: int,
) -> bool {
    forall|i: int|
        0 <= i < n ==> {
            &&& (#[trigger] signatures[i]).index < keys.len()
            &&& (i > 0 ==> signatures[i - 1].index < signatures[i].index)
            &&& ed25519_valid(
                keys[signatures[i].index as int]@,
                message,
                signatures[i].signature@,
            )
        }
}

/// Whether a threshold signature is valid for `message`: the bundle asks for
/// at least one signature, at least as many are given as it asks for, and
/// all of them are valid signatures of distinct keys of the bundle.
pub open spec fn multi_ed25519_valid(
    key: MultiEd25519PublicKey,
    message: Seq<u8>,
    signature: MultiEd25519Signature,
) -> bool {
    &&& key.threshold >= 1
    &&& signature.signatures@.len() >= key.threshold
    &&& signatures_valid(
        key.public_keys@,
        signature.signatures@,
        message,
        signature.signatures@.len() as int,
    )
}

impl MultiEd25519PublicKey {
    pub fn new(public_keys: Vec<Ed25519PublicKey>, threshold: u8) -> (r: Self)
        ensures
            r.public_keys == public_keys,
            r.threshold == threshold,
    {
        MultiEd25519PublicKey { public_keys, threshold }
    }

    /// Whether `signature` is valid for `message` under this bundle.
    pub fn verifies(&self, message: &[u8], signature: &MultiEd25519Signature) -> (r: bool)
        ensures
            r == multi_ed25519_valid(*self, message@, *signature),
    {
        if self.threshold < 1 || signature.signatures.len() < self.threshold as usize {
            return false;
        }
        let mut i: usize = 0;
        while i < signature.signatures.len()
            invariant
                i <= signature.signatures.len(),
                signatures_valid(self.public_keys@, signature.signatures@, message@, i as int),
            decreases signature.signatures.len() - i,
        {
            let entry = signature.signatures[i];
            if entry.index as usize >= self.public_keys.len() {
                return false;
            }
            if i > 0 && signature.signatures[i - 1].index >= entry.index {
                return false;
            }
            if !self.public_keys[entry.index as usize].verifies(message, &entry.signature) {
                return false;
            }
            i += 1;
        }
        true
    }
}

impl MultiEd25519Signature {
    pub fn new(signatures: Vec<IndexedSignature>) -> (r: Self)
        ensures
            r.signatures == signatures,
    {
        MultiEd25519Signature { signatures }
    }
}

} // verus!
