//! How a transaction proves who sent it.

use crate::account_address::AccountAddress;
use crate::bytes::{append, be_u128};
use crate::codec::{
    byte_string, concat_all, lemma_concat_all_push, sequence, write_byte_string, write_u8,
    write_uleb128,
};
use crate::crypto::{
    ed25519_valid, multi_ed25519_valid, Ed25519PublicKey, Ed25519Signature, IndexedSignature,
    MultiEd25519PublicKey, MultiEd25519Signature,
};
use vstd::prelude::*;

verus! {

/// The bytes of the keys of a bundle, one by one.
pub open spec fn key_parts(keys: Seq<Ed25519PublicKey>) -> Seq<Seq<u8>> {
    Seq::new(keys.len(), |i: int| keys[i]@)
}

/// The bytes of the signatures of a threshold signature, one by one: the
/// position of the key, then the signature.
pub open spec fn signature_parts(signatures: Seq<IndexedSignature>) -> Seq<Seq<u8>> {
    Seq::new(signatures.len(), |i: int| seq![signatures[i].index] + signatures[i].signature@)
}

/// The sixteen bytes of each address of a list.
pub open spec fn address_parts(addresses: Seq<AccountAddress>) -> Seq<Seq<u8>> {
    Seq::new(addresses.len(), |i: int| be_u128(addresses[i].value))
}

/// The canonical encoding of a key bundle: the keys, then the threshold.
pub open spec fn multi_key_encoding(key: MultiEd25519PublicKey) -> Seq<u8> {
    sequence(key_parts(key.public_keys@)) + seq![key.threshold]
}

/// The canonical encoding of a threshold signature.
pub open spec fn multi_signature_encoding(signature: MultiEd25519Signature) -> Seq<u8> {
    sequence(signature_parts(signature.signatures@))
}

fn encode_multi_key(key: &MultiEd25519PublicKey, out: &mut Vec<u8>)
    ensures
        final(out)@ == old(out)@ + multi_key_encoding(*key),
{
    write_uleb128(out, key.public_keys.len());
    let ghost parts = key_parts(key.public_keys@);
    let ghost head = out@;
    let mut i: usize = 0;
    assert(concat_all(parts.take(0)) =~= Seq::<u8>::empty());
    while i < key.public_keys.len()
        invariant
            i <= key.public_keys.len(),
            parts == key_parts(key.public_keys@),
            out@ == head + concat_all(parts.take(i as int)),
        decreases key.public_keys.len() - i,
    {
        append(out, &key.public_keys[i].bytes);
        proof {
            lemma_concat_all_push(parts, i as int);
        }
        i += 1;
        assert(out@ =~= head + concat_all(parts.take(i as int)));
    }
    assert(parts.take(i as int) =~= parts);
    write_u8(out, key.threshold);
    assert(out@ =~= old(out)@ + multi_key_encoding(*key));
}

fn encode_multi_signature(signature: &MultiEd25519Signature, out: &mut Vec<u8>)
    ensures
        final(out)@ == old(out)@ + multi_signature_encoding(*signature),
{
    write_uleb128(out, signature.signatures.len());
    let ghost parts = signature_parts(signature.signatures@);
    let ghost head = out@;
    let mut i: usize = 0;
    assert(concat_all(parts.take(0)) =~= Seq::<u8>::empty());
    while i < signature.signatures.len()
        invariant
            i <= signature.signatures.len(),
            parts == signature_parts(signature.signatures@),
            out@ == head + concat_all(parts.take(i as int)),
        decreases signature.signatures.len() - i,
    {
        let ghost before = out@;
        write_u8(out, signature.signatures[i].index);
        append(out, &signature.signatures[i].signature.bytes);
        proof {
            lemma_concat_all_push(parts, i as int);
            assert(out@ =~= before + parts[i as int]);
        }
        i += 1;
        assert(out@ =~= head + concat_all(parts.take(i as int)));
    }
    assert(parts.take(i as int) =~= parts);
    assert(out@ =~= old(out)@ + multi_signature_encoding(*signature));
}

/// Appends the canonical encoding of a list of addresses.
pub fn encode_addresses(addresses: &Vec<AccountAddress>, out: &mut Vec<u8>)
    ensures
        final(out)@ == old(out)@ + sequence(address_parts(addresses@)),
{
    write_uleb128(out, addresses.len());
    let ghost parts = address_parts(addresses@);
    let ghost head = out@;
    let mut i: usize = 0;
    assert(concat_all(parts.take(0)) =~= Seq::<u8>::empty());
    while i < addresses.len()
        invariant
            i <= addresses.len(),
            parts == address_parts(addresses@),
            out@ == head + concat_all(parts.take(i as int)),
        decreases addresses.len() - i,
    {
        let bytes = addresses[i].to_bytes();
        append(out, &bytes);
        proof {
            lemma_concat_all_push(parts, i as int);
        }
        i += 1;
        assert(out@ =~= head + concat_all(parts.take(i as int)));
    }
    assert(parts.take(i as int) =~= parts);
    assert(out@ =~= old(out)@ + sequence(parts));
}

/// Copies a list of addresses.
pub fn clone_addresses(addresses: &Vec<AccountAddress>) -> (r: Vec<AccountAddress>)
    ensures
        r@ == addresses@,
{
    let mut r: Vec<AccountAddress> = Vec::new();
    let mut i: usize = 0;
    while i < addresses.len()
        invariant
            i <= addresses.len(),
            r@ == addresses@.take(i as int),
        decreases addresses.len() - i,
    {
        r.push(addresses[i]);
        i += 1;
        assert(r@ =~= addresses@.take(i as int));
    }
    assert(addresses@.take(i as int) =~= addresses@);
    r
}

/// How one account authorises a transaction.
#[derive(Debug, PartialEq, Eq)]
#[allow(inconsistent_fields)]
pub enum AccountAuthenticator {
    /// A single signature.
    Ed25519 { public_key: Ed25519PublicKey, signature: Ed25519Signature },
    /// A threshold signature.
    MultiEd25519 { public_key: MultiEd25519PublicKey, signature: MultiEd25519Signature },
}

impl View for AccountAuthenticator {
    type V = Seq<u8>;

    /// The canonical encoding: the number of the kind, then the key and the
    /// signature.
    open spec fn view(&self) -> Seq<u8> {
        match self {
            AccountAuthenticator::Ed25519 { public_key, signature } => seq![0u8] + byte_string(
                public_key@,
            ) + byte_string(signature@),
            AccountAuthenticator::MultiEd25519 { public_key, signature } => seq![1u8]
                + multi_key_encoding(*public_key) + multi_signature_encoding(*signature),
        }
    }
}

impl Clone for AccountAuthenticator {
    fn clone(&self) -> (r: Self)
        ensures
            r@ == self@,
            forall|message: Seq<u8>| r.spec_verifies(message) == self.spec_verifies(message),
    {
        match self {
            AccountAuthenticator::Ed25519 { public_key, signature } => {
                AccountAuthenticator::Ed25519 { public_key: *public_key, signature: *signature }
            },
            AccountAuthenticator::MultiEd25519 { public_key, signature } => {
                AccountAuthenticator::MultiEd25519 {
                    public_key: public_key.clone(),
                    signature: signature.clone(),
                }
            },
        }
    }
}

impl AccountAuthenticator {
    /// An authenticator with a single signature.
    pub fn ed25519(public_key: Ed25519PublicKey, signature: Ed25519Signature) -> (r: Self)
        ensures
            r == (AccountAuthenticator::Ed25519 { public_key, signature }),
    {
        AccountAuthenticator::Ed25519 { public_key, signature }
    }

    /// An authenticator with a threshold signature.
    pub fn multi_ed25519(public_key: MultiEd25519PublicKey, signature: MultiEd25519Signature) -> (r:
        Self)
        ensures
            r == (AccountAuthenticator::MultiEd25519 { public_key, signature }),
    {
        AccountAuthenticator::MultiEd25519 { public_key, signature }
    }

    /// Whether the authenticator holds a valid signature of `message`.
    pub open spec fn spec_verifies(&self, message: Seq<u8>) -> bool {
        match self {
            AccountAuthenticator::Ed25519 { public_key, signature } => ed25519_valid(
                public_key@,
                message,
                signature@,
            ),
            AccountAuthenticator::MultiEd25519 { public_key, signature } => multi_ed25519_valid(
                *public_key,
                message,
                *signature,
            ),
        }
    }

    pub fn verifies(&self, message: &[u8]) -> (r: bool)
        ensures
            r == self.spec_verifies(message@),
    {
        match self {
            AccountAuthenticator::Ed25519 { public_key, signature } => public_key.verifies(
                message,
                signature,
            ),
            AccountAuthenticator::MultiEd25519 { public_key, signature } => public_key.verifies(
                message,
                signature,
            ),
        }
    }

    /// Appends the canonical encoding.
    pub fn encode(&self, out: &mut Vec<u8>)
        ensures
            final(out)@ == old(out)@ + self@,
    {
        match self {
            AccountAuthenticator::Ed25519 { public_key, signature } => {
                write_u8(out, 0);
                write_byte_string(out, &public_key.bytes);
                write_byte_string(out, &signature.bytes);
            },
            AccountAuthenticator::MultiEd25519 { public_key, signature } => {
                write_u8(out, 1);
                encode_multi_key(public_key, out);
                encode_multi_signature(signature, out);
            },
        }
        assert(out@ =~= old(out)@ + self@);
    }
}

/// The canonical encodings of the authenticators of a list, one by one.
pub open spec fn authenticator_parts(signers: Seq<AccountAuthenticator>) -> Seq<Seq<u8>> {
    Seq::new(signers.len(), |i: int| signers[i]@)
}

/// Whether each authenticator of a list holds a valid signature of
/// `message`.
pub open spec fn all_verify(signers: Seq<AccountAuthenticator>, message: Seq<u8>) -> bool {
    forall|i: int| 0 <= i < signers.len() ==> (#[trigger] signers[i]).spec_verifies(message)
}

fn all_signers_verify(signers: &Vec<AccountAuthenticator>, message: &[u8]) -> (r: bool)
    ensures
        r == all_verify(signers@, message@),
{
    let mut i: usize = 0;
    while i < signers.len()
        invariant
            i <= signers.len(),
            forall|j: int| 0 <= j < i ==> (#[trigger] signers@[j]).spec_verifies(message@),
        decreases signers.len() - i,
    {
        if !signers[i].verifies(message) {
            assert(!signers@[i as int].spec_verifies(message@));
            return false;
        }
        i += 1;
    }
    true
}

fn encode_authenticators(signers: &Vec<AccountAuthenticator>, out: &mut Vec<u8>)
    ensures
        final(out)@ == old(out)@ + sequence(authenticator_parts(signers@)),
{
    write_uleb128(out, signers.len());
    let ghost parts = authenticator_parts(signers@);
    let ghost head = out@;
    let mut i: usize = 0;
    assert(concat_all(parts.take(0)) =~= Seq::<u8>::empty());
    while i < signers.len()
        invariant
            i <= signers.len(),
            parts == authenticator_parts(signers@),
            out@ == head + concat_all(parts.take(i as int)),
        decreases signers.len() - i,
    {
        signers[i].encode(out);
        proof {
            lemma_concat_all_push(parts, i as int);
        }
        i += 1;
        assert(out@ =~= head + concat_all(parts.take(i as int)));
    }
    assert(parts.take(i as int) =~= parts);
    assert(out@ =~= old(out)@ + sequence(parts));
}

fn clone_authenticators(signers: &Vec<AccountAuthenticator>) -> (r: Vec<AccountAuthenticator>)
    ensures
        authenticator_parts(r@) == authenticator_parts(signers@),
        r@.len() == signers@.len(),
        forall|message: Seq<u8>| all_verify(r@, message) == all_verify(signers@, message),
{
    let mut r: Vec<AccountAuthenticator> = Vec::new();
    let mut i: usize = 0;
    while i < signers.len()
        invariant
            i <= signers.len(),
            r@.len() == i,
            forall|j: int| 0 <= j < i ==> r@[j]@ == signers@[j]@,
            forall|j: int, message: Seq<u8>|
                0 <= j < i ==> (#[trigger] r@[j].spec_verifies(message)) == signers@[j].spec_verifies(
                    message,
                ),
        decreases signers.len() - i,
    {
        r.push(signers[i].clone());
        i += 1;
    }
    assert(authenticator_parts(r@) =~= authenticator_parts(signers@));
    assert forall|message: Seq<u8>| all_verify(r@, message) == all_verify(signers@, message) by {
        if all_verify(r@, message) {
            assert forall|j: int| 0 <= j < signers@.len() implies (#[trigger] signers@[j]).spec_verifies(
                message,
            ) by {
                assert(r@[j].spec_verifies(message));
            }
        }
        if all_verify(signers@, message) {
            assert forall|j: int| 0 <= j < r@.len() implies (#[trigger] r@[j]).spec_verifies(
                message,
            ) by {
                assert(signers@[j].spec_verifies(message));
            }
        }
    }
    r
}

/// How a transaction is authorised.
#[derive(Debug, PartialEq, Eq)]
#[allow(inconsistent_fields)]
pub enum TransactionAuthenticator {
    /// A single signature of the sender.
    Ed25519 { public_key: Ed25519PublicKey, signature: Ed25519Signature },
    /// A threshold signature of the sender.
    MultiEd25519 { public_key: MultiEd25519PublicKey, signature: MultiEd25519Signature },
    /// The sender and further signers each authorise the transaction.
    MultiAgent {
        sender: AccountAuthenticator,
        secondary_signer_addresses: Vec<AccountAddress>,
        secondary_signers: Vec<AccountAuthenticator>,
    },
}

impl View for TransactionAuthenticator {
    type V = Seq<u8>;

    /// The canonical encoding: the number of the kind, then its fields.
    open spec fn view(&self) -> Seq<u8> {
        match self {
            TransactionAuthenticator::Ed25519 { public_key, signature } => seq![0u8] + byte_string(
                public_key@,
            ) + byte_string(signature@),
            TransactionAuthenticator::MultiEd25519 { public_key, signature } => seq![1u8]
                + multi_key_encoding(*public_key) + multi_signature_encoding(*signature),
            TransactionAuthenticator::MultiAgent {
                sender,
                secondary_signer_addresses,
                secondary_signers,
            } => seq![2u8] + sender@ + sequence(address_parts(secondary_signer_addresses@))
                + sequence(authenticator_parts(secondary_signers@)),
        }
    }
}

impl Clone for TransactionAuthenticator {
    fn clone(&self) -> (r: Self)
        ensures
            r@ == self@,
            r.spec_secondary_signer_addresses() == self.spec_secondary_signer_addresses(),
            r is MultiAgent <==> self is MultiAgent,
            forall|single: Seq<u8>, multi: Seq<u8>|
                r.spec_verifies(single, multi) == self.spec_verifies(single, multi),
    {
        match self {
            TransactionAuthenticator::Ed25519 { public_key, signature } => {
                TransactionAuthenticator::Ed25519 { public_key: *public_key, signature: *signature }
            },
            TransactionAuthenticator::MultiEd25519 { public_key, signature } => {
                TransactionAuthenticator::MultiEd25519 {
                    public_key: public_key.clone(),
                    signature: signature.clone(),
                }
            },
            TransactionAuthenticator::MultiAgent {
                sender,
                secondary_signer_addresses,
                secondary_signers,
            } => {
                TransactionAuthenticator::MultiAgent {
                    sender: sender.clone(),
                    secondary_signer_addresses: clone_addresses(secondary_signer_addresses),
                    secondary_signers: clone_authenticators(secondary_signers),
                }
            },
        }
    }
}

impl TransactionAuthenticator {
    /// An authenticator with a single signature of the sender.
    pub fn ed25519(public_key: Ed25519PublicKey, signature: Ed25519Signature) -> (r: Self)
        ensures
            r == (TransactionAuthenticator::Ed25519 { public_key, signature }),
    {
        TransactionAuthenticator::Ed25519 { public_key, signature }
    }

    /// An authenticator with a threshold signature of the sender.
    pub fn multi_ed25519(public_key: MultiEd25519PublicKey, signature: MultiEd25519Signature) -> (r:
        Self)
        ensures
            r == (TransactionAuthenticator::MultiEd25519 { public_key, signature }),
    {
        TransactionAuthenticator::MultiEd25519 { public_key, signature }
    }

    /// An authenticator of the sender and of further signers.
    pub fn multi_agent(
        sender: AccountAuthenticator,
        secondary_signer_addresses: Vec<AccountAddress>,
        secondary_signers: Vec<AccountAuthenticator>,
    ) -> (r: Self)
        ensures
            r == (TransactionAuthenticator::MultiAgent {
                sender,
                secondary_signer_addresses,
                secondary_signers,
            }),
    {
        TransactionAuthenticator::MultiAgent { sender, secondary_signer_addresses, secondary_signers }
    }

    /// The addresses of the further signers; none but for a multi-agent
    /// transaction.
    pub open spec fn spec_secondary_signer_addresses(&self) -> Seq<AccountAddress> {
        match self {
            TransactionAuthenticator::MultiAgent { secondary_signer_addresses, .. } =>
                secondary_signer_addresses@,
            _ => Seq::<AccountAddress>::empty(),
        }
    }

    pub fn secondary_signer_addresses(&self) -> (r: Vec<AccountAddress>)
        ensures
            r@ == self.spec_secondary_signer_addresses(),
    {
        match self {
            TransactionAuthenticator::MultiAgent { secondary_signer_addresses, .. } => {
                clone_addresses(secondary_signer_addresses)
            },
            _ => Vec::new(),
        }
    }

    /// Whether the authenticator authorises a transaction. `single` is the
    /// message that the sender alone signs, `multi` the message that the
    /// sender and the further signers of a multi-agent transaction sign. A
    /// multi-agent authenticator holds one authenticator for each further
    /// signer's address, and all of them and the sender's are valid for
    /// `multi`.
    pub open spec fn spec_verifies(&self, single: Seq<u8>, multi: Seq<u8>) -> bool {
        match self {
            TransactionAuthenticator::Ed25519 { public_key, signature } => ed25519_valid(
                public_key@,
                single,
                signature@,
            ),
            TransactionAuthenticator::MultiEd25519 { public_key, signature } => multi_ed25519_valid(
                *public_key,
                single,
                *signature,
            ),
            TransactionAuthenticator::MultiAgent {
                sender,
                secondary_signer_addresses,
                secondary_signers,
            } => {
                &&& secondary_signer_addresses@.len() == secondary_signers@.len()
                &&& sender.spec_verifies(multi)
                &&& all_verify(secondary_signers@, multi)
            },
        }
    }

    pub fn verifies(&self, single: &[u8], multi: &[u8]) -> (r: bool)
        ensures
            r == self.spec_verifies(single@, multi@),
    {
        match self {
            TransactionAuthenticator::Ed25519 { public_key, signature } => public_key.verifies(
                single,
                signature,
            ),
            TransactionAuthenticator::MultiEd25519 { public_key, signature } => public_key.verifies(
                single,
                signature,
            ),
            TransactionAuthenticator::MultiAgent {
                sender,
                secondary_signer_addresses,
                secondary_signers,
            } => {
                if secondary_signer_addresses.len() != secondary_signers.len() {
                    return false;
                }
                if !sender.verifies(multi) {
                    return false;
                }
                all_signers_verify(secondary_signers, multi)
            },
        }
    }

    /// Appends the canonical encoding.
    pub fn encode(&self, out: &mut Vec<u8>)
        ensures
            final(out)@ == old(out)@ + self@,
    {
        match self {
            TransactionAuthenticator::Ed25519 { public_key, signature } => {
                write_u8(out, 0);
                write_byte_string(out, &public_key.bytes);
                write_byte_string(out, &signature.bytes);
            },
            TransactionAuthenticator::MultiEd25519 { public_key, signature } => {
                write_u8(out, 1);
                encode_multi_key(public_key, out);
                encode_multi_signature(signature, out);
            },
            TransactionAuthenticator::MultiAgent {
                sender,
                secondary_signer_addresses,
                secondary_signers,
            } => {
                write_u8(out, 2);
                sender.encode(out);
                encode_addresses(secondary_signer_addresses, out);
                encode_authenticators(secondary_signers, out);
            },
        }
        assert(out@ =~= old(out)@ + self@);
    }
}

} // verus!
