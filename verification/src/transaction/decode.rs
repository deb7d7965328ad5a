//! Reading transactions back from their canonical encoding. Each reader
//! takes the bytes and a place in them; it gives the value that stands at
//! the place and the place behind it, or nothing where no value stands
//! there. What it gives is pinned from both sides: a value whose encoding
//! stands at the place is read, equal field by field; and what is read has
//! its encoding at the place.

use crate::account_address::AccountAddress;
use crate::bytes::{be_u128, le_u64};
use crate::codec::{
    byte_string, concat_all, lemma_concat_all_push, lemma_reads_split, read_byte_string,
    read_u128, read_u64, read_u8, read_uleb128, reads, sequence, uleb128,
};
use crate::crypto::{
    Ed25519PublicKey, Ed25519Signature, IndexedSignature, MultiEd25519PublicKey,
    MultiEd25519Signature,
};
use crate::transaction::authenticator::{
    address_parts, authenticator_parts, key_parts, multi_key_encoding,
    multi_signature_encoding, signature_parts, AccountAuthenticator, TransactionAuthenticator,
};
use crate::transaction::{
    event_parts, ChainId, ChangeSet, ContractEvent, Module, RawTransaction, Script,
    ScriptFunction, SignedTransaction, TransactionPayload, WriteSet, WriteSetPayload,
};
use vstd::prelude::*;
use vstd::utf8::{decode_utf8, encode_utf8, valid_utf8};

verus! {

/// Calls `String::from_utf8`, which makes a string of bytes that are valid
/// UTF-8 and fails on any others.
#[verifier::external_body]
fn string_from_utf8(bytes: Vec<u8>) -> (r: Option<String>)
    ensures
        r is Some <==> valid_utf8(bytes@),
        r is Some ==> r->Some_0@ == decode_utf8(bytes@),
{
    String::from_utf8(bytes).ok()
}

/// The parts of a list, from the place `i` on, stand behind those before
/// them.
pub proof fn lemma_concat_all_split(parts: Seq<Seq<u8>>, i: int)
    requires
        0 <= i <= parts.len(),
    ensures
        concat_all(parts) == concat_all(parts.take(i)) + concat_all(parts.skip(i)),
    decreases parts.len() - i,
{
    if i == parts.len() {
        assert(parts.take(i) =~= parts);
        assert(parts.skip(i) =~= Seq::<Seq<u8>>::empty());
        assert(concat_all(parts) =~= concat_all(parts) + Seq::<u8>::empty());
    } else {
        lemma_concat_all_split(parts, i + 1);
        lemma_concat_all_push(parts, i);
        lemma_concat_all_front(parts.skip(i));
        assert(parts.skip(i).drop_first() =~= parts.skip(i + 1));
        assert(concat_all(parts.take(i)) + (parts[i] + concat_all(parts.skip(i + 1))) =~= (
        concat_all(parts.take(i)) + parts[i]) + concat_all(parts.skip(i + 1)));
    }
}

/// The parts of a list stand behind the first of them.
pub proof fn lemma_concat_all_front(parts: Seq<Seq<u8>>)
    requires
        parts.len() > 0,
    ensures
        concat_all(parts) == parts[0] + concat_all(parts.drop_first()),
    decreases parts.len(),
{
    if parts.len() == 1 {
        assert(parts.drop_last() =~= Seq::<Seq<u8>>::empty());
        assert(parts.drop_first() =~= Seq::<Seq<u8>>::empty());
        assert(concat_all(parts.drop_last()) =~= Seq::<u8>::empty());
        assert(concat_all(parts.drop_first()) =~= Seq::<u8>::empty());
        assert(concat_all(parts) =~= Seq::<u8>::empty() + parts[0]);
        assert(Seq::<u8>::empty() + parts[0] =~= parts[0] + Seq::<u8>::empty());
    } else {
        lemma_concat_all_front(parts.drop_last());
        assert(parts.drop_last().drop_first() =~= parts.drop_first().drop_last());
        assert(parts.drop_first().last() == parts.last());
        assert((parts[0] + concat_all(parts.drop_first().drop_last())) + parts.last() =~= parts[0]
            + (concat_all(parts.drop_first().drop_last()) + parts.last()));
    }
}

/// A list whose parts are not empty is no shorter in bytes than in parts.
pub proof fn lemma_concat_all_len(parts: Seq<Seq<u8>>)
    requires
        forall|i: int| 0 <= i < parts.len() ==> (#[trigger] parts[i]).len() >= 1,
    ensures
        concat_all(parts).len() >= parts.len(),
    decreases parts.len(),
{
    if parts.len() > 0 {
        assert forall|i: int| 0 <= i < parts.drop_last().len() implies (
        #[trigger] parts.drop_last()[i]).len() >= 1 by {
            assert(parts.drop_last()[i] == parts[i]);
        }
        lemma_concat_all_len(parts.drop_last());
    }
}

/// Sixteen bytes spell an address.
pub proof fn lemma_be_u128_len(v: u128)
    ensures
        be_u128(v).len() == 16,
{
}

/// Reads the address that stands at `pos`.
pub fn read_address(data: &[u8], pos: usize) -> (r: Option<(AccountAddress, usize)>)
    ensures
        forall|v: u128|
            #[trigger] reads(data@, pos as int, be_u128(v)) ==> r == Some(
                (AccountAddress { value: v }, (pos + 16) as usize),
            ),
        r is Some ==> reads(data@, pos as int, be_u128(r->Some_0.0.value)) && r->Some_0.1 == pos
            + 16,
{
    match read_u128(data, pos) {
        Some((value, next)) => Some((AccountAddress { value }, next)),
        None => None,
    }
}

/// Reads the chain id that stands at `pos`.
pub fn read_chain_id(data: &[u8], pos: usize) -> (r: Option<(ChainId, usize)>)
    ensures
        forall|v: u8|
            #[trigger] reads(data@, pos as int, seq![v]) ==> r == Some(
                (ChainId(v), (pos + 1) as usize),
            ),
        r is Some ==> reads(data@, pos as int, seq![r->Some_0.0.0]) && r->Some_0.1 == pos + 1,
{
    match read_u8(data, pos) {
        Some((id, next)) => Some((ChainId(id), next)),
        None => None,
    }
}

/// Reads the text that stands at `pos` as a byte string in UTF-8.
pub fn read_string(data: &[u8], pos: usize) -> (r: Option<(String, usize)>)
    ensures
        forall|s: Seq<char>|
            #[trigger] reads(data@, pos as int, byte_string(encode_utf8(s))) ==> r is Some
                && r->Some_0.0@ == s && r->Some_0.1 == pos + byte_string(encode_utf8(s)).len(),
        r is Some ==> reads(data@, pos as int, byte_string(encode_utf8(r->Some_0.0@)))
            && r->Some_0.1 == pos + byte_string(encode_utf8(r->Some_0.0@)).len(),
{
    proof {
        assert forall|s: Seq<char>| #[trigger]
            reads(data@, pos as int, byte_string(encode_utf8(s))) implies valid_utf8(
            encode_utf8(s),
        ) && decode_utf8(encode_utf8(s)) == s by {
            vstd::utf8::encode_utf8_valid_utf8(s);
            vstd::utf8::encode_utf8_decode_utf8(s);
        }
    }
    let (bytes, next) = match read_byte_string(data, pos) {
        Some(read) => read,
        None => {
            return None;
        },
    };
    let ghost raw = bytes@;
    match string_from_utf8(bytes) {
        Some(text) => {
            proof {
                vstd::utf8::decode_utf8_encode_utf8(raw);
            }
            Some((text, next))
        },
        None => None,
    }
}

/// Copies 32 bytes into an array.
fn array_32(bytes: &[u8]) -> (r: [u8; 32])
    requires
        bytes@.len() == 32,
    ensures
        r@ == bytes@,
{
    let mut out = [0u8; 32];
    let mut i: usize = 0;
    while i < 32
        invariant
            i <= 32,
            bytes@.len() == 32,
            forall|j: int| 0 <= j < i ==> out@[j] == bytes@[j],
        decreases 32 - i,
    {
        out[i] = bytes[i];
        i += 1;
    }
    assert(out@ =~= bytes@);
    out
}

/// Copies 64 bytes into an array.
fn array_64(bytes: &[u8]) -> (r: [u8; 64])
    requires
        bytes@.len() == 64,
    ensures
        r@ == bytes@,
{
    let mut out = [0u8; 64];
    let mut i: usize = 0;
    while i < 64
        invariant
            i <= 64,
            bytes@.len() == 64,
            forall|j: int| 0 <= j < i ==> out@[j] == bytes@[j],
        decreases 64 - i,
    {
        out[i] = bytes[i];
        i += 1;
    }
    assert(out@ =~= bytes@);
    out
}

impl Script {
    /// Whether two values are equal, field by field.
    pub open spec fn deep_eq(&self, other: Script) -> bool {
        &&& self.code@ == other.code@
        &&& self.type_args@ == other.type_args@
        &&& self.args@ == other.args@
    }

    /// Reads the script that stands at `pos`.
    pub fn decode(data: &[u8], pos: usize) -> (r: Option<(Script, usize)>)
        ensures
            forall|x: Script|
                #[trigger] reads(data@, pos as int, x@) ==> r is Some && r->Some_0.0.deep_eq(x)
                    && r->Some_0.1 == pos + x@.len(),
            r is Some ==> reads(data@, pos as int, r->Some_0.0@) && r->Some_0.1 == pos
                + r->Some_0.0@.len(),
    {
        proof {
            assert forall|x: Script| #[trigger] reads(data@, pos as int, x@) implies {
                &&& reads(data@, pos as int, byte_string(x.code@))
                &&& reads(data@, pos + (byte_string(x.code@)).len(), byte_string(x.type_args@))
                &&& reads(data@, pos + (byte_string(x.code@) + byte_string(x.type_args@)).len(), byte_string(x.args@))
            } by {
                lemma_reads_split(data@, pos as int, byte_string(x.code@) + byte_string(x.type_args@), byte_string(x.args@));
                lemma_reads_split(data@, pos as int, byte_string(x.code@), byte_string(x.type_args@));
            }
        }
        let (code, next1) = match read_byte_string(data, pos) {
            Some(read) => read,
            None => {
                return None;
            },
        };
        let (type_args, next2) = match read_byte_string(data, next1) {
            Some(read) => read,
            None => {
                return None;
            },
        };
        let (args, next3) = match read_byte_string(data, next2) {
            Some(read) => read,
            None => {
                return None;
            },
        };
        let value = Script { code, type_args, args };
        proof {
            lemma_reads_split(data@, pos as int, byte_string(value.code@), byte_string(value.type_args@));
            lemma_reads_split(data@, pos as int, byte_string(value.code@) + byte_string(value.type_args@), byte_string(value.args@));
        }
        Some((value, next3))
    }
}

impl Module {
    /// Whether two values are equal, field by field.
    pub open spec fn deep_eq(&self, other: Module) -> bool {
        &&& self.code@ == other.code@
    }

    /// Reads the module that stands at `pos`.
    pub fn decode(data: &[u8], pos: usize) -> (r: Option<(Module, usize)>)
        ensures
            forall|x: Module|
                #[trigger] reads(data@, pos as int, x@) ==> r is Some && r->Some_0.0.deep_eq(x)
                    && r->Some_0.1 == pos + x@.len(),
            r is Some ==> reads(data@, pos as int, r->Some_0.0@) && r->Some_0.1 == pos
                + r->Some_0.0@.len(),
    {
        let (code, next1) = match read_byte_string(data, pos) {
            Some(read) => read,
            None => {
                return None;
            },
        };
        let value = Module { code };
        Some((value, next1))
    }
}

impl ScriptFunction {
    /// Whether two values are equal, field by field.
    pub open spec fn deep_eq(&self, other: ScriptFunction) -> bool {
        &&& self.module_address == other.module_address
        &&& self.module_name@ == other.module_name@
        &&& self.function@ == other.function@
        &&& self.type_args@ == other.type_args@
        &&& self.args@ == other.args@
    }

    /// Reads the script function that stands at `pos`.
    #[verifier::rlimit(80)]
    pub fn decode(data: &[u8], pos: usize) -> (r: Option<(ScriptFunction, usize)>)
        ensures
            forall|x: ScriptFunction|
                #[trigger] reads(data@, pos as int, x@) ==> r is Some && r->Some_0.0.deep_eq(x)
                    && r->Some_0.1 == pos + x@.len(),
            r is Some ==> reads(data@, pos as int, r->Some_0.0@) && r->Some_0.1 == pos
                + r->Some_0.0@.len(),
    {
        proof {
            assert forall|x: ScriptFunction| #[trigger] reads(data@, pos as int, x@) implies {
                &&& reads(data@, pos as int, be_u128(x.module_address.value))
                &&& reads(data@, pos + (be_u128(x.module_address.value)).len(), byte_string(x.module_name@))
                &&& reads(data@, pos + (be_u128(x.module_address.value) + byte_string(x.module_name@)).len(), byte_string(x.function@))
                &&& reads(data@, pos + (be_u128(x.module_address.value) + byte_string(x.module_name@) + byte_string(x.function@)).len(), byte_string(x.type_args@))
                &&& reads(data@, pos + (be_u128(x.module_address.value) + byte_string(x.module_name@) + byte_string(x.function@) + byte_string(x.type_args@)).len(), byte_string(x.args@))
            } by {
                lemma_reads_split(data@, pos as int, be_u128(x.module_address.value) + byte_string(x.module_name@) + byte_string(x.function@) + byte_string(x.type_args@), byte_string(x.args@));
                lemma_reads_split(data@, pos as int, be_u128(x.module_address.value) + byte_string(x.module_name@) + byte_string(x.function@), byte_string(x.type_args@));
                lemma_reads_split(data@, pos as int, be_u128(x.module_address.value) + byte_string(x.module_name@), byte_string(x.function@));
                lemma_reads_split(data@, pos as int, be_u128(x.module_address.value), byte_string(x.module_name@));
            }
        }
        let (module_address, next1) = match read_address(data, pos) {
            Some(read) => read,
            None => {
                return None;
            },
        };
        let (module_name, next2) = match read_byte_string(data, next1) {
            Some(read) => read,
            None => {
                return None;
            },
        };
        let (function, next3) = match read_byte_string(data, next2) {
            Some(read) => read,
            None => {
                return None;
            },
        };
        let (type_args, next4) = match read_byte_string(data, next3) {
            Some(read) => read,
            None => {
                return None;
            },
        };
        let (args, next5) = match read_byte_string(data, next4) {
            Some(read) => read,
            None => {
                return None;
            },
        };
        let value = ScriptFunction { module_address, module_name, function, type_args, args };
        proof {
            lemma_reads_split(data@, pos as int, be_u128(value.module_address.value), byte_string(value.module_name@));
            lemma_reads_split(data@, pos as int, be_u128(value.module_address.value) + byte_string(value.module_name@), byte_string(value.function@));
            lemma_reads_split(data@, pos as int, be_u128(value.module_address.value) + byte_string(value.module_name@) + byte_string(value.function@), byte_string(value.type_args@));
            lemma_reads_split(data@, pos as int, be_u128(value.module_address.value) + byte_string(value.module_name@) + byte_string(value.function@) + byte_string(value.type_args@), byte_string(value.args@));
        }
        Some((value, next5))
    }
}

impl WriteSet {
    /// Whether two values are equal, field by field.
    pub open spec fn deep_eq(&self, other: WriteSet) -> bool {
        &&& self.bytes@ == other.bytes@
    }

    /// Reads the write set that stands at `pos`.
    pub fn decode(data: &[u8], pos: usize) -> (r: Option<(WriteSet, usize)>)
        ensures
            forall|x: WriteSet|
                #[trigger] reads(data@, pos as int, x@) ==> r is Some && r->Some_0.0.deep_eq(x)
                    && r->Some_0.1 == pos + x@.len(),
            r is Some ==> reads(data@, pos as int, r->Some_0.0@) && r->Some_0.1 == pos
                + r->Some_0.0@.len(),
    {
        let (bytes, next1) = match read_byte_string(data, pos) {
            Some(read) => read,
            None => {
                return None;
            },
        };
        let value = WriteSet { bytes };
        Some((value, next1))
    }
}

impl ContractEvent {
    /// Whether two values are equal, field by field.
    pub open spec fn deep_eq(&self, other: ContractEvent) -> bool {
        &&& self.key@ == other.key@
        &&& self.sequence_number == other.sequence_number
        &&& self.type_tag@ == other.type_tag@
        &&& self.event_data@ == other.event_data@
    }

    /// Reads the event that stands at `pos`.
    #[verifier::rlimit(80)]
    pub fn decode(data: &[u8], pos: usize) -> (r: Option<(ContractEvent, usize)>)
        ensures
            forall|x: ContractEvent|
                #[trigger] reads(data@, pos as int, x@) ==> r is Some && r->Some_0.0.deep_eq(x)
                    && r->Some_0.1 == pos + x@.len(),
            r is Some ==> reads(data@, pos as int, r->Some_0.0@) && r->Some_0.1 == pos
                + r->Some_0.0@.len(),
    {
        proof {
            assert forall|x: ContractEvent| #[trigger] reads(data@, pos as int, x@) implies {
                &&& reads(data@, pos as int, byte_string(x.key@))
                &&& reads(data@, pos + (byte_string(x.key@)).len(), le_u64(x.sequence_number))
                &&& reads(data@, pos + (byte_string(x.key@) + le_u64(x.sequence_number)).len(), byte_string(x.type_tag@))
                &&& reads(data@, pos + (byte_string(x.key@) + le_u64(x.sequence_number) + byte_string(x.type_tag@)).len(), byte_string(x.event_data@))
            } by {
                lemma_reads_split(data@, pos as int, byte_string(x.key@) + le_u64(x.sequence_number) + byte_string(x.type_tag@), byte_string(x.event_data@));
                lemma_reads_split(data@, pos as int, byte_string(x.key@) + le_u64(x.sequence_number), byte_string(x.type_tag@));
                lemma_reads_split(data@, pos as int, byte_string(x.key@), le_u64(x.sequence_number));
            }
        }
        let (key, next1) = match read_byte_string(data, pos) {
            Some(read) => read,
            None => {
                return None;
            },
        };
        let (sequence_number, next2) = match read_u64(data, next1) {
            Some(read) => read,
            None => {
                return None;
            },
        };
        let (type_tag, next3) = match read_byte_string(data, next2) {
            Some(read) => read,
            None => {
                return None;
            },
        };
        let (event_data, next4) = match read_byte_string(data, next3) {
            Some(read) => read,
            None => {
                return None;
            },
        };
        let value = ContractEvent { key, sequence_number, type_tag, event_data };
        proof {
            lemma_reads_split(data@, pos as int, byte_string(value.key@), le_u64(value.sequence_number));
            lemma_reads_split(data@, pos as int, byte_string(value.key@) + le_u64(value.sequence_number), byte_string(value.type_tag@));
            lemma_reads_split(data@, pos as int, byte_string(value.key@) + le_u64(value.sequence_number) + byte_string(value.type_tag@), byte_string(value.event_data@));
        }
        Some((value, next4))
    }
}

/// Whether two lists hold equal items at the same places.
pub open spec fn events_eq(a: Seq<ContractEvent>, b: Seq<ContractEvent>) -> bool {
    &&& a.len() == b.len()
    &&& forall|j: int| 0 <= j < a.len() ==> a[j].deep_eq(b[j])
}

/// Reads the list of events that stands at `pos`.
#[verifier::rlimit(40)]
pub fn decode_events(data: &[u8], pos: usize) -> (r: Option<(Vec<ContractEvent>, usize)>)
    ensures
        forall|xs: Seq<ContractEvent>|
            #[trigger] reads(data@, pos as int, sequence(event_parts(xs))) ==> r is Some && events_eq(
                r->Some_0.0@,
                xs,
            ) && r->Some_0.1 == pos + sequence(event_parts(xs)).len(),
        r is Some ==> reads(data@, pos as int, sequence(event_parts(r->Some_0.0@))) && r->Some_0.1
            == pos + sequence(event_parts(r->Some_0.0@)).len(),
{
    let total = data.len();
    proof {
        assert forall|xs: Seq<ContractEvent>| #[trigger]
            reads(data@, pos as int, sequence(event_parts(xs))) implies reads(
            data@,
            pos as int,
            uleb128(xs.len()),
        ) && reads(data@, pos + uleb128(xs.len()).len(), concat_all(event_parts(xs))) && xs.len()
            <= usize::MAX by {
            lemma_reads_split(data@, pos as int, uleb128(xs.len()), concat_all(event_parts(xs)));
            assert forall|k: int| 0 <= k < event_parts(xs).len() implies (#[trigger] event_parts(
                xs,
            )[k]).len() >= 1 by {
                assert(le_u64(xs[k].sequence_number).len() == 8);
            }
            lemma_concat_all_len(event_parts(xs));
            assert(xs.len() <= total);
        }
    }
    let (n, start) = match read_uleb128(data, pos) {
        Some(read) => read,
        None => {
            return None;
        },
    };
    let mut items: Vec<ContractEvent> = Vec::new();
    let mut p: usize = start;
    let mut i: usize = 0;
    proof {
        assert forall|xs: Seq<ContractEvent>| #[trigger]
            reads(data@, pos as int, sequence(event_parts(xs))) implies concat_all(
            event_parts(xs).take(0),
        ).len() == 0 by {
            assert(event_parts(xs).take(0) =~= Seq::<Seq<u8>>::empty());
        }
        assert(event_parts(items@).take(0) =~= Seq::<Seq<u8>>::empty());
        assert(event_parts(items@) =~= Seq::<Seq<u8>>::empty());
        assert(concat_all(event_parts(items@)) =~= Seq::<u8>::empty());
        assert(data@.subrange(start as int, start as int) =~= Seq::<u8>::empty());
    }
    while i < n
        invariant
            i <= n,
            items@.len() == i,
            start <= p <= data@.len(),
            start == pos + uleb128(n as nat).len(),
            reads(data@, pos as int, uleb128(n as nat)),
            forall|xs: Seq<ContractEvent>|
                #[trigger] reads(data@, pos as int, sequence(event_parts(xs))) ==> {
                    &&& xs.len() == n
                    &&& reads(data@, start as int, concat_all(event_parts(xs)))
                    &&& p == start + concat_all(event_parts(xs).take(i as int)).len()
                    &&& forall|j: int| 0 <= j < i ==> items@[j].deep_eq(xs[j])
                },
            reads(data@, start as int, concat_all(event_parts(items@))),
            p == start + concat_all(event_parts(items@)).len(),
        decreases n - i,
    {
        proof {
            assert forall|xs: Seq<ContractEvent>| #[trigger]
                reads(data@, pos as int, sequence(event_parts(xs))) implies reads(
                data@,
                p as int,
                event_parts(xs)[i as int],
            ) by {
                lemma_concat_all_split(event_parts(xs), i as int);
                lemma_concat_all_push(event_parts(xs), i as int);
                lemma_concat_all_split(event_parts(xs), i as int + 1);
                let before = concat_all(event_parts(xs).take(i as int));
                let item = event_parts(xs)[i as int];
                let after = concat_all(event_parts(xs).skip(i as int + 1));
                lemma_reads_split(data@, start as int, before + item, after);
                lemma_reads_split(data@, start as int, before, item);
            }
        }
        let ghost before_items = items@;
        let (item, next) = match ContractEvent::decode(data, p) {
            Some(read) => read,
            None => {
                return None;
            },
        };
        items.push(item);
        proof {
            let parts = event_parts(items@);
            assert(parts.take(i as int) =~= event_parts(before_items));
            lemma_concat_all_push(parts, i as int);
            assert(parts.take(i as int + 1) =~= parts);
            lemma_reads_split(
                data@,
                start as int,
                concat_all(event_parts(before_items)),
                parts[i as int],
            );
            assert forall|xs: Seq<ContractEvent>| #[trigger]
                reads(data@, pos as int, sequence(event_parts(xs))) implies next == start + concat_all(
                event_parts(xs).take(i as int + 1),
            ).len() by {
                lemma_concat_all_push(event_parts(xs), i as int);
            }
        }
        p = next;
        i += 1;
    }
    proof {
        assert forall|xs: Seq<ContractEvent>| #[trigger]
            reads(data@, pos as int, sequence(event_parts(xs))) implies p == start + concat_all(
            event_parts(xs),
        ).len() by {
            assert(event_parts(xs).take(n as int) =~= event_parts(xs));
        }
        lemma_reads_split(
            data@,
            pos as int,
            uleb128(n as nat),
            concat_all(event_parts(items@)),
        );
    }
    Some((items, p))
}

impl ChangeSet {
    /// Whether two values are equal, field by field.
    pub open spec fn deep_eq(&self, other: ChangeSet) -> bool {
        &&& self.write_set.deep_eq(other.write_set)
        &&& events_eq(self.events@, other.events@)
    }

    /// Reads the change set that stands at `pos`.
    pub fn decode(data: &[u8], pos: usize) -> (r: Option<(ChangeSet, usize)>)
        ensures
            forall|x: ChangeSet|
                #[trigger] reads(data@, pos as int, x@) ==> r is Some && r->Some_0.0.deep_eq(x)
                    && r->Some_0.1 == pos + x@.len(),
            r is Some ==> reads(data@, pos as int, r->Some_0.0@) && r->Some_0.1 == pos
                + r->Some_0.0@.len(),
    {
        proof {
            assert forall|x: ChangeSet| #[trigger] reads(data@, pos as int, x@) implies {
                &&& reads(data@, pos as int, x.write_set@)
                &&& reads(data@, pos + (x.write_set@).len(), sequence(event_parts(x.events@)))
            } by {
                lemma_reads_split(data@, pos as int, x.write_set@, sequence(event_parts(x.events@)));
            }
        }
        let (write_set, next1) = match WriteSet::decode(data, pos) {
            Some(read) => read,
            None => {
                return None;
            },
        };
        let (events, next2) = match decode_events(data, next1) {
            Some(read) => read,
            None => {
                return None;
            },
        };
        let value = ChangeSet { write_set, events };
        proof {
            lemma_reads_split(data@, pos as int, value.write_set@, sequence(event_parts(value.events@)));
        }
        Some((value, next2))
    }
}

impl WriteSetPayload {
    /// Whether two values are equal, field by field.
    pub open spec fn deep_eq(&self, other: WriteSetPayload) -> bool {
        match (*self, other) {
            (WriteSetPayload::Direct(a), WriteSetPayload::Direct(b)) => a.deep_eq(b),
            (
                WriteSetPayload::Script { execute_as: a, script: s },
                WriteSetPayload::Script { execute_as: b, script: t },
            ) => a == b && s.deep_eq(t),
            _ => false,
        }
    }

    /// Reads the write-set payload that stands at `pos`.
    pub fn decode(data: &[u8], pos: usize) -> (r: Option<(WriteSetPayload, usize)>)
        ensures
            forall|x: WriteSetPayload|
                #[trigger] reads(data@, pos as int, x@) ==> r is Some && r->Some_0.0.deep_eq(x)
                    && r->Some_0.1 == pos + x@.len(),
            r is Some ==> reads(data@, pos as int, r->Some_0.0@) && r->Some_0.1 == pos
                + r->Some_0.0@.len(),
    {
        proof {
            assert forall|x: WriteSetPayload| #[trigger] reads(data@, pos as int, x@) implies match x {
                WriteSetPayload::Direct(c) => reads(data@, pos as int, seq![0u8]) && reads(
                    data@,
                    pos + 1,
                    c@,
                ),
                WriteSetPayload::Script { execute_as, script } => reads(
                    data@,
                    pos as int,
                    seq![1u8],
                ) && reads(data@, pos + 1, be_u128(execute_as.value)) && reads(
                    data@,
                    pos + 17,
                    script@,
                ),
            } by {
                match x {
                    WriteSetPayload::Direct(c) => {
                        lemma_reads_split(data@, pos as int, seq![0u8], c@);
                    },
                    WriteSetPayload::Script { execute_as, script } => {
                        lemma_reads_split(
                            data@,
                            pos as int,
                            seq![1u8] + be_u128(execute_as.value),
                            script@,
                        );
                        lemma_reads_split(data@, pos as int, seq![1u8], be_u128(execute_as.value));
                        lemma_be_u128_len(execute_as.value);
                    },
                }
            }
        }
        let (tag, next1) = match read_u8(data, pos) {
            Some(read) => read,
            None => {
                return None;
            },
        };
        if tag == 0 {
            let (change_set, next2) = match ChangeSet::decode(data, next1) {
                Some(read) => read,
                None => {
                    return None;
                },
            };
            proof {
                lemma_reads_split(data@, pos as int, seq![0u8], change_set@);
            }
            Some((WriteSetPayload::Direct(change_set), next2))
        } else if tag == 1 {
            let (execute_as, next2) = match read_address(data, next1) {
                Some(read) => read,
                None => {
                    return None;
                },
            };
            let (script, next3) = match Script::decode(data, next2) {
                Some(read) => read,
                None => {
                    return None;
                },
            };
            proof {
                lemma_be_u128_len(execute_as.value);
                lemma_reads_split(data@, pos as int, seq![1u8], be_u128(execute_as.value));
                lemma_reads_split(
                    data@,
                    pos as int,
                    seq![1u8] + be_u128(execute_as.value),
                    script@,
                );
            }
            Some((WriteSetPayload::Script { execute_as, script }, next3))
        } else {
            None
        }
    }
}

impl TransactionPayload {
    /// Whether two values are equal, field by field.
    pub open spec fn deep_eq(&self, other: TransactionPayload) -> bool {
        match (*self, other) {
            (TransactionPayload::WriteSet(a), TransactionPayload::WriteSet(b)) => a.deep_eq(b),
            (TransactionPayload::Script(a), TransactionPayload::Script(b)) => a.deep_eq(b),
            (TransactionPayload::Module(a), TransactionPayload::Module(b)) => a.deep_eq(b),
            (TransactionPayload::ScriptFunction(a), TransactionPayload::ScriptFunction(b)) =>
                a.deep_eq(b),
            _ => false,
        }
    }

    /// Reads the payload that stands at `pos`.
    pub fn decode(data: &[u8], pos: usize) -> (r: Option<(TransactionPayload, usize)>)
        ensures
            forall|x: TransactionPayload|
                #[trigger] reads(data@, pos as int, x@) ==> r is Some && r->Some_0.0.deep_eq(x)
                    && r->Some_0.1 == pos + x@.len(),
            r is Some ==> reads(data@, pos as int, r->Some_0.0@) && r->Some_0.1 == pos
                + r->Some_0.0@.len(),
    {
        proof {
            assert forall|x: TransactionPayload| #[trigger] reads(data@, pos as int, x@) implies match x {
                TransactionPayload::WriteSet(p) => reads(data@, pos as int, seq![0u8]) && reads(
                    data@,
                    pos + 1,
                    p@,
                ),
                TransactionPayload::Script(p) => reads(data@, pos as int, seq![1u8]) && reads(
                    data@,
                    pos + 1,
                    p@,
                ),
                TransactionPayload::Module(p) => reads(data@, pos as int, seq![2u8]) && reads(
                    data@,
                    pos + 1,
                    p@,
                ),
                TransactionPayload::ScriptFunction(p) => reads(data@, pos as int, seq![3u8])
                    && reads(data@, pos + 1, p@),
            } by {
                match x {
                    TransactionPayload::WriteSet(p) => {
                        lemma_reads_split(data@, pos as int, seq![0u8], p@);
                    },
                    TransactionPayload::Script(p) => {
                        lemma_reads_split(data@, pos as int, seq![1u8], p@);
                    },
                    TransactionPayload::Module(p) => {
                        lemma_reads_split(data@, pos as int, seq![2u8], p@);
                    },
                    TransactionPayload::ScriptFunction(p) => {
                        lemma_reads_split(data@, pos as int, seq![3u8], p@);
                    },
                }
            }
        }
        let (tag, next1) = match read_u8(data, pos) {
            Some(read) => read,
            None => {
                return None;
            },
        };
        if tag == 0 {
            match WriteSetPayload::decode(data, next1) {
                Some((p, next2)) => {
                    proof {
                        lemma_reads_split(data@, pos as int, seq![0u8], p@);
                    }
                    Some((TransactionPayload::WriteSet(p), next2))
                },
                None => None,
            }
        } else if tag == 1 {
            match Script::decode(data, next1) {
                Some((p, next2)) => {
                    proof {
                        lemma_reads_split(data@, pos as int, seq![1u8], p@);
                    }
                    Some((TransactionPayload::Script(p), next2))
                },
                None => None,
            }
        } else if tag == 2 {
            match Module::decode(data, next1) {
                Some((p, next2)) => {
                    proof {
                        lemma_reads_split(data@, pos as int, seq![2u8], p@);
                    }
                    Some((TransactionPayload::Module(p), next2))
                },
                None => None,
            }
        } else if tag == 3 {
            match ScriptFunction::decode(data, next1) {
                Some((p, next2)) => {
                    proof {
                        lemma_reads_split(data@, pos as int, seq![3u8], p@);
                    }
                    Some((TransactionPayload::ScriptFunction(p), next2))
                },
                None => None,
            }
        } else {
            None
        }
    }
}

impl RawTransaction {
    /// Whether two values are equal, field by field.
    pub open spec fn deep_eq(&self, other: RawTransaction) -> bool {
        &&& self.sender == other.sender
        &&& self.sequence_number == other.sequence_number
        &&& self.payload.deep_eq(other.payload)
        &&& self.max_gas_amount == other.max_gas_amount
        &&& self.gas_unit_price == other.gas_unit_price
        &&& self.gas_currency_code@ == other.gas_currency_code@
        &&& self.expiration_timestamp_secs == other.expiration_timestamp_secs
        &&& self.chain_id == other.chain_id
    }

    /// Reads the raw transaction that stands at `pos`.
    #[verifier::rlimit(80)]
    pub fn decode(data: &[u8], pos: usize) -> (r: Option<(RawTransaction, usize)>)
        ensures
            forall|x: RawTransaction|
                #[trigger] reads(data@, pos as int, x@) ==> r is Some && r->Some_0.0.deep_eq(x)
                    && r->Some_0.1 == pos + x@.len(),
            r is Some ==> reads(data@, pos as int, r->Some_0.0@) && r->Some_0.1 == pos
                + r->Some_0.0@.len(),
    {
        proof {
            assert forall|x: RawTransaction| #[trigger] reads(data@, pos as int, x@) implies {
                &&& reads(data@, pos as int, be_u128(x.sender.value))
                &&& reads(data@, pos + (be_u128(x.sender.value)).len(), le_u64(x.sequence_number))
                &&& reads(data@, pos + (be_u128(x.sender.value) + le_u64(x.sequence_number)).len(), x.payload@)
                &&& reads(data@, pos + (be_u128(x.sender.value) + le_u64(x.sequence_number) + x.payload@).len(), le_u64(x.max_gas_amount))
                &&& reads(data@, pos + (be_u128(x.sender.value) + le_u64(x.sequence_number) + x.payload@ + le_u64(x.max_gas_amount)).len(), le_u64(x.gas_unit_price))
                &&& reads(data@, pos + (be_u128(x.sender.value) + le_u64(x.sequence_number) + x.payload@ + le_u64(x.max_gas_amount) + le_u64(x.gas_unit_price)).len(), byte_string(encode_utf8(x.gas_currency_code@)))
                &&& reads(data@, pos + (be_u128(x.sender.value) + le_u64(x.sequence_number) + x.payload@ + le_u64(x.max_gas_amount) + le_u64(x.gas_unit_price) + byte_string(encode_utf8(x.gas_currency_code@))).len(), le_u64(x.expiration_timestamp_secs))
                &&& reads(data@, pos + (be_u128(x.sender.value) + le_u64(x.sequence_number) + x.payload@ + le_u64(x.max_gas_amount) + le_u64(x.gas_unit_price) + byte_string(encode_utf8(x.gas_currency_code@)) + le_u64(x.expiration_timestamp_secs)).len(), seq![x.chain_id.0])
            } by {
                lemma_reads_split(data@, pos as int, be_u128(x.sender.value) + le_u64(x.sequence_number) + x.payload@ + le_u64(x.max_gas_amount) + le_u64(x.gas_unit_price) + byte_string(encode_utf8(x.gas_currency_code@)) + le_u64(x.expiration_timestamp_secs), seq![x.chain_id.0]);
                lemma_reads_split(data@, pos as int, be_u128(x.sender.value) + le_u64(x.sequence_number) + x.payload@ + le_u64(x.max_gas_amount) + le_u64(x.gas_unit_price) + byte_string(encode_utf8(x.gas_currency_code@)), le_u64(x.expiration_timestamp_secs));
                lemma_reads_split(data@, pos as int, be_u128(x.sender.value) + le_u64(x.sequence_number) + x.payload@ + le_u64(x.max_gas_amount) + le_u64(x.gas_unit_price), byte_string(encode_utf8(x.gas_currency_code@)));
                lemma_reads_split(data@, pos as int, be_u128(x.sender.value) + le_u64(x.sequence_number) + x.payload@ + le_u64(x.max_gas_amount), le_u64(x.gas_unit_price));
                lemma_reads_split(data@, pos as int, be_u128(x.sender.value) + le_u64(x.sequence_number) + x.payload@, le_u64(x.max_gas_amount));
                lemma_reads_split(data@, pos as int, be_u128(x.sender.value) + le_u64(x.sequence_number), x.payload@);
                lemma_reads_split(data@, pos as int, be_u128(x.sender.value), le_u64(x.sequence_number));
            }
        }
        let (sender, next1) = match read_address(data, pos) {
            Some(read) => read,
            None => {
                return None;
            },
        };
        let (sequence_number, next2) = match read_u64(data, next1) {
            Some(read) => read,
            None => {
                return None;
            },
        };
        let (payload, next3) = match TransactionPayload::decode(data, next2) {
            Some(read) => read,
            None => {
                return None;
            },
        };
        let (max_gas_amount, next4) = match read_u64(data, next3) {
            Some(read) => read,
            None => {
                return None;
            },
        };
        let (gas_unit_price, next5) = match read_u64(data, next4) {
            Some(read) => read,
            None => {
                return None;
            },
        };
        let (gas_currency_code, next6) = match read_string(data, next5) {
            Some(read) => read,
            None => {
                return None;
            },
        };
        let (expiration_timestamp_secs, next7) = match read_u64(data, next6) {
            Some(read) => read,
            None => {
                return None;
            },
        };
        let (chain_id, next8) = match read_chain_id(data, next7) {
            Some(read) => read,
            None => {
                return None;
            },
        };
        let value = RawTransaction {
            sender,
            sequence_number,
            payload,
            max_gas_amount,
            gas_unit_price,
            gas_currency_code,
            expiration_timestamp_secs,
            chain_id,
        };
        proof {
            lemma_reads_split(data@, pos as int, be_u128(value.sender.value), le_u64(value.sequence_number));
            lemma_reads_split(data@, pos as int, be_u128(value.sender.value) + le_u64(value.sequence_number), value.payload@);
            lemma_reads_split(data@, pos as int, be_u128(value.sender.value) + le_u64(value.sequence_number) + value.payload@, le_u64(value.max_gas_amount));
            lemma_reads_split(data@, pos as int, be_u128(value.sender.value) + le_u64(value.sequence_number) + value.payload@ + le_u64(value.max_gas_amount), le_u64(value.gas_unit_price));
            lemma_reads_split(data@, pos as int, be_u128(value.sender.value) + le_u64(value.sequence_number) + value.payload@ + le_u64(value.max_gas_amount) + le_u64(value.gas_unit_price), byte_string(encode_utf8(value.gas_currency_code@)));
            lemma_reads_split(data@, pos as int, be_u128(value.sender.value) + le_u64(value.sequence_number) + value.payload@ + le_u64(value.max_gas_amount) + le_u64(value.gas_unit_price) + byte_string(encode_utf8(value.gas_currency_code@)), le_u64(value.expiration_timestamp_secs));
            lemma_reads_split(data@, pos as int, be_u128(value.sender.value) + le_u64(value.sequence_number) + value.payload@ + le_u64(value.max_gas_amount) + le_u64(value.gas_unit_price) + byte_string(encode_utf8(value.gas_currency_code@)) + le_u64(value.expiration_timestamp_secs), seq![value.chain_id.0]);
        }
        Some((value, next8))
    }
}

/// Reads the public key that stands at `pos` as a byte string.
pub fn read_public_key(data: &[u8], pos: usize) -> (r: Option<(Ed25519PublicKey, usize)>)
    ensures
        forall|x: Ed25519PublicKey|
            #[trigger] reads(data@, pos as int, byte_string(x@)) ==> r is Some && r->Some_0.0@ == x@
                && r->Some_0.1 == pos + byte_string(x@).len(),
        r is Some ==> reads(data@, pos as int, byte_string(r->Some_0.0@)) && r->Some_0.1 == pos
            + byte_string(r->Some_0.0@).len(),
{
    let (bytes, next) = match read_byte_string(data, pos) {
        Some(read) => read,
        None => {
            return None;
        },
    };
    if bytes.len() != 32 {
        return None;
    }
    Some((Ed25519PublicKey { bytes: array_32(bytes.as_slice()) }, next))
}

/// Reads the signature that stands at `pos` as a byte string.
pub fn read_signature(data: &[u8], pos: usize) -> (r: Option<(Ed25519Signature, usize)>)
    ensures
        forall|x: Ed25519Signature|
            #[trigger] reads(data@, pos as int, byte_string(x@)) ==> r is Some && r->Some_0.0@ == x@
                && r->Some_0.1 == pos + byte_string(x@).len(),
        r is Some ==> reads(data@, pos as int, byte_string(r->Some_0.0@)) && r->Some_0.1 == pos
            + byte_string(r->Some_0.0@).len(),
{
    let (bytes, next) = match read_byte_string(data, pos) {
        Some(read) => read,
        None => {
            return None;
        },
    };
    if bytes.len() != 64 {
        return None;
    }
    Some((Ed25519Signature { bytes: array_64(bytes.as_slice()) }, next))
}

/// Reads the 32 bytes of a public key that stand at `pos`.
pub fn read_raw_key(data: &[u8], pos: usize) -> (r: Option<(Ed25519PublicKey, usize)>)
    ensures
        forall|x: Ed25519PublicKey|
            #[trigger] reads(data@, pos as int, x@) ==> r is Some && r->Some_0.0@ == x@
                && r->Some_0.1 == pos + 32,
        r is Some ==> reads(data@, pos as int, r->Some_0.0@) && r->Some_0.1 == pos + 32,
{
    if pos > data.len() || data.len() - pos < 32 {
        return None;
    }
    let bytes = vstd::slice::slice_subrange(data, pos, pos + 32);
    Some((Ed25519PublicKey { bytes: array_32(bytes) }, pos + 32))
}

/// Reads the signature with the position of its key that stands at `pos`.
pub fn read_indexed_signature(data: &[u8], pos: usize) -> (r: Option<(IndexedSignature, usize)>)
    ensures
        forall|x: IndexedSignature|
            #[trigger] reads(data@, pos as int, seq![x.index] + x.signature@) ==> r is Some
                && r->Some_0.0.index == x.index && r->Some_0.0.signature@ == x.signature@
                && r->Some_0.1 == pos + 65,
        r is Some ==> reads(
            data@,
            pos as int,
            seq![r->Some_0.0.index] + r->Some_0.0.signature@,
        ) && r->Some_0.1 == pos + 65,
{
    proof {
        assert forall|x: IndexedSignature| #[trigger]
            reads(data@, pos as int, seq![x.index] + x.signature@) implies reads(
            data@,
            pos as int,
            seq![x.index],
        ) && reads(data@, pos + 1, x.signature@) by {
            lemma_reads_split(data@, pos as int, seq![x.index], x.signature@);
        }
    }
    let (index, next1) = match read_u8(data, pos) {
        Some(read) => read,
        None => {
            return None;
        },
    };
    if data.len() - next1 < 64 {
        return None;
    }
    let bytes = vstd::slice::slice_subrange(data, next1, next1 + 64);
    let signature = Ed25519Signature { bytes: array_64(bytes) };
    proof {
        lemma_reads_split(data@, pos as int, seq![index], signature@);
    }
    Some((IndexedSignature { index, signature }, next1 + 64))
}

/// Whether two lists hold equal items at the same places.
pub open spec fn keys_eq(a: Seq<Ed25519PublicKey>, b: Seq<Ed25519PublicKey>) -> bool {
    &&& a.len() == b.len()
    &&& forall|j: int| 0 <= j < a.len() ==> a[j]@ == b[j]@
}

/// Reads the list of public keys that stands at `pos`.
#[verifier::rlimit(40)]
pub fn decode_keys(data: &[u8], pos: usize) -> (r: Option<(Vec<Ed25519PublicKey>, usize)>)
    ensures
        forall|xs: Seq<Ed25519PublicKey>|
            #[trigger] reads(data@, pos as int, sequence(key_parts(xs))) ==> r is Some && keys_eq(
                r->Some_0.0@,
                xs,
            ) && r->Some_0.1 == pos + sequence(key_parts(xs)).len(),
        r is Some ==> reads(data@, pos as int, sequence(key_parts(r->Some_0.0@))) && r->Some_0.1
            == pos + sequence(key_parts(r->Some_0.0@)).len(),
{
    let total = data.len();
    proof {
        assert forall|xs: Seq<Ed25519PublicKey>| #[trigger]
            reads(data@, pos as int, sequence(key_parts(xs))) implies reads(
            data@,
            pos as int,
            uleb128(xs.len()),
        ) && reads(data@, pos + uleb128(xs.len()).len(), concat_all(key_parts(xs))) && xs.len()
            <= usize::MAX by {
            lemma_reads_split(data@, pos as int, uleb128(xs.len()), concat_all(key_parts(xs)));
            assert forall|k: int| 0 <= k < key_parts(xs).len() implies (#[trigger] key_parts(
                xs,
            )[k]).len() >= 1 by {
                assert(xs[k]@.len() == 32);
            }
            lemma_concat_all_len(key_parts(xs));
            assert(xs.len() <= total);
        }
    }
    let (n, start) = match read_uleb128(data, pos) {
        Some(read) => read,
        None => {
            return None;
        },
    };
    let mut items: Vec<Ed25519PublicKey> = Vec::new();
    let mut p: usize = start;
    let mut i: usize = 0;
    proof {
        assert forall|xs: Seq<Ed25519PublicKey>| #[trigger]
            reads(data@, pos as int, sequence(key_parts(xs))) implies concat_all(
            key_parts(xs).take(0),
        ).len() == 0 by {
            assert(key_parts(xs).take(0) =~= Seq::<Seq<u8>>::empty());
        }
        assert(key_parts(items@).take(0) =~= Seq::<Seq<u8>>::empty());
        assert(key_parts(items@) =~= Seq::<Seq<u8>>::empty());
        assert(concat_all(key_parts(items@)) =~= Seq::<u8>::empty());
        assert(data@.subrange(start as int, start as int) =~= Seq::<u8>::empty());
    }
    while i < n
        invariant
            i <= n,
            items@.len() == i,
            start <= p <= data@.len(),
            start == pos + uleb128(n as nat).len(),
            reads(data@, pos as int, uleb128(n as nat)),
            forall|xs: Seq<Ed25519PublicKey>|
                #[trigger] reads(data@, pos as int, sequence(key_parts(xs))) ==> {
                    &&& xs.len() == n
                    &&& reads(data@, start as int, concat_all(key_parts(xs)))
                    &&& p == start + concat_all(key_parts(xs).take(i as int)).len()
                    &&& forall|j: int| 0 <= j < i ==> items@[j]@ == xs[j]@
                },
            reads(data@, start as int, concat_all(key_parts(items@))),
            p == start + concat_all(key_parts(items@)).len(),
        decreases n - i,
    {
        proof {
            assert forall|xs: Seq<Ed25519PublicKey>| #[trigger]
                reads(data@, pos as int, sequence(key_parts(xs))) implies reads(
                data@,
                p as int,
                key_parts(xs)[i as int],
            ) by {
                lemma_concat_all_split(key_parts(xs), i as int);
                lemma_concat_all_push(key_parts(xs), i as int);
                lemma_concat_all_split(key_parts(xs), i as int + 1);
                let before = concat_all(key_parts(xs).take(i as int));
                let item = key_parts(xs)[i as int];
                let after = concat_all(key_parts(xs).skip(i as int + 1));
                lemma_reads_split(data@, start as int, before + item, after);
                lemma_reads_split(data@, start as int, before, item);
            }
        }
        let ghost before_items = items@;
        let (item, next) = match read_raw_key(data, p) {
            Some(read) => read,
            None => {
                return None;
            },
        };
        items.push(item);
        proof {
            let parts = key_parts(items@);
            assert(parts.take(i as int) =~= key_parts(before_items));
            lemma_concat_all_push(parts, i as int);
            assert(parts.take(i as int + 1) =~= parts);
            lemma_reads_split(
                data@,
                start as int,
                concat_all(key_parts(before_items)),
                parts[i as int],
            );
            assert forall|xs: Seq<Ed25519PublicKey>| #[trigger]
                reads(data@, pos as int, sequence(key_parts(xs))) implies next == start + concat_all(
                key_parts(xs).take(i as int + 1),
            ).len() by {
                lemma_concat_all_push(key_parts(xs), i as int);
            }
        }
        p = next;
        i += 1;
    }
    proof {
        assert forall|xs: Seq<Ed25519PublicKey>| #[trigger]
            reads(data@, pos as int, sequence(key_parts(xs))) implies p == start + concat_all(
            key_parts(xs),
        ).len() by {
            assert(key_parts(xs).take(n as int) =~= key_parts(xs));
        }
        lemma_reads_split(
            data@,
            pos as int,
            uleb128(n as nat),
            concat_all(key_parts(items@)),
        );
    }
    Some((items, p))
}

/// Whether two lists hold equal items at the same places.
pub open spec fn signatures_eq(a: Seq<IndexedSignature>, b: Seq<IndexedSignature>) -> bool {
    &&& a.len() == b.len()
    &&& forall|j: int| 0 <= j < a.len() ==> a[j].index == b[j].index && a[j].signature@ == b[j].signature@
}

/// Reads the list of signatures that stands at `pos`.
#[verifier::rlimit(40)]
pub fn decode_signatures(data: &[u8], pos: usize) -> (r: Option<(Vec<IndexedSignature>, usize)>)
    ensures
        forall|xs: Seq<IndexedSignature>|
            #[trigger] reads(data@, pos as int, sequence(signature_parts(xs))) ==> r is Some && signatures_eq(
                r->Some_0.0@,
                xs,
            ) && r->Some_0.1 == pos + sequence(signature_parts(xs)).len(),
        r is Some ==> reads(data@, pos as int, sequence(signature_parts(r->Some_0.0@))) && r->Some_0.1
            == pos + sequence(signature_parts(r->Some_0.0@)).len(),
{
    let total = data.len();
    proof {
        assert forall|xs: Seq<IndexedSignature>| #[trigger]
            reads(data@, pos as int, sequence(signature_parts(xs))) implies reads(
            data@,
            pos as int,
            uleb128(xs.len()),
        ) && reads(data@, pos + uleb128(xs.len()).len(), concat_all(signature_parts(xs))) && xs.len()
            <= usize::MAX by {
            lemma_reads_split(data@, pos as int, uleb128(xs.len()), concat_all(signature_parts(xs)));
            assert forall|k: int| 0 <= k < signature_parts(xs).len() implies (#[trigger] signature_parts(
                xs,
            )[k]).len() >= 1 by {
                assert((seq![xs[k].index] + xs[k].signature@).len() == 65);
            }
            lemma_concat_all_len(signature_parts(xs));
            assert(xs.len() <= total);
        }
    }
    let (n, start) = match read_uleb128(data, pos) {
        Some(read) => read,
        None => {
            return None;
        },
    };
    let mut items: Vec<IndexedSignature> = Vec::new();
    let mut p: usize = start;
    let mut i: usize = 0;
    proof {
        assert forall|xs: Seq<IndexedSignature>| #[trigger]
            reads(data@, pos as int, sequence(signature_parts(xs))) implies concat_all(
            signature_parts(xs).take(0),
        ).len() == 0 by {
            assert(signature_parts(xs).take(0) =~= Seq::<Seq<u8>>::empty());
        }
        assert(signature_parts(items@).take(0) =~= Seq::<Seq<u8>>::empty());
        assert(signature_parts(items@) =~= Seq::<Seq<u8>>::empty());
        assert(concat_all(signature_parts(items@)) =~= Seq::<u8>::empty());
        assert(data@.subrange(start as int, start as int) =~= Seq::<u8>::empty());
    }
    while i < n
        invariant
            i <= n,
            items@.len() == i,
            start <= p <= data@.len(),
            start == pos + uleb128(n as nat).len(),
            reads(data@, pos as int, uleb128(n as nat)),
            forall|xs: Seq<IndexedSignature>|
                #[trigger] reads(data@, pos as int, sequence(signature_parts(xs))) ==> {
                    &&& xs.len() == n
                    &&& reads(data@, start as int, concat_all(signature_parts(xs)))
                    &&& p == start + concat_all(signature_parts(xs).take(i as int)).len()
                    &&& forall|j: int| 0 <= j < i ==> items@[j].index == xs[j].index && items@[j].signature@ == xs[j].signature@
                },
            reads(data@, start as int, concat_all(signature_parts(items@))),
            p == start + concat_all(signature_parts(items@)).len(),
        decreases n - i,
    {
        proof {
            assert forall|xs: Seq<IndexedSignature>| #[trigger]
                reads(data@, pos as int, sequence(signature_parts(xs))) implies reads(
                data@,
                p as int,
                signature_parts(xs)[i as int],
            ) by {
                lemma_concat_all_split(signature_parts(xs), i as int);
                lemma_concat_all_push(signature_parts(xs), i as int);
                lemma_concat_all_split(signature_parts(xs), i as int + 1);
                let before = concat_all(signature_parts(xs).take(i as int));
                let item = signature_parts(xs)[i as int];
                let after = concat_all(signature_parts(xs).skip(i as int + 1));
                lemma_reads_split(data@, start as int, before + item, after);
                lemma_reads_split(data@, start as int, before, item);
            }
        }
        let ghost before_items = items@;
        let (item, next) = match read_indexed_signature(data, p) {
            Some(read) => read,
            None => {
                return None;
            },
        };
        items.push(item);
        proof {
            let parts = signature_parts(items@);
            assert(parts.take(i as int) =~= signature_parts(before_items));
            lemma_concat_all_push(parts, i as int);
            assert(parts.take(i as int + 1) =~= parts);
            lemma_reads_split(
                data@,
                start as int,
                concat_all(signature_parts(before_items)),
                parts[i as int],
            );
            assert forall|xs: Seq<IndexedSignature>| #[trigger]
                reads(data@, pos as int, sequence(signature_parts(xs))) implies next == start + concat_all(
                signature_parts(xs).take(i as int + 1),
            ).len() by {
                lemma_concat_all_push(signature_parts(xs), i as int);
            }
        }
        p = next;
        i += 1;
    }
    proof {
        assert forall|xs: Seq<IndexedSignature>| #[trigger]
            reads(data@, pos as int, sequence(signature_parts(xs))) implies p == start + concat_all(
            signature_parts(xs),
        ).len() by {
            assert(signature_parts(xs).take(n as int) =~= signature_parts(xs));
        }
        lemma_reads_split(
            data@,
            pos as int,
            uleb128(n as nat),
            concat_all(signature_parts(items@)),
        );
    }
    Some((items, p))
}

/// Whether two lists hold equal items at the same places.
pub open spec fn addresses_eq(a: Seq<AccountAddress>, b: Seq<AccountAddress>) -> bool {
    &&& a.len() == b.len()
    &&& forall|j: int| 0 <= j < a.len() ==> a[j] == b[j]
}

/// Reads the list of addresses that stands at `pos`.
#[verifier::rlimit(40)]
pub fn decode_addresses(data: &[u8], pos: usize) -> (r: Option<(Vec<AccountAddress>, usize)>)
    ensures
        forall|xs: Seq<AccountAddress>|
            #[trigger] reads(data@, pos as int, sequence(address_parts(xs))) ==> r is Some && addresses_eq(
                r->Some_0.0@,
                xs,
            ) && r->Some_0.1 == pos + sequence(address_parts(xs)).len(),
        r is Some ==> reads(data@, pos as int, sequence(address_parts(r->Some_0.0@))) && r->Some_0.1
            == pos + sequence(address_parts(r->Some_0.0@)).len(),
{
    let total = data.len();
    proof {
        assert forall|xs: Seq<AccountAddress>| #[trigger]
            reads(data@, pos as int, sequence(address_parts(xs))) implies reads(
            data@,
            pos as int,
            uleb128(xs.len()),
        ) && reads(data@, pos + uleb128(xs.len()).len(), concat_all(address_parts(xs))) && xs.len()
            <= usize::MAX by {
            lemma_reads_split(data@, pos as int, uleb128(xs.len()), concat_all(address_parts(xs)));
            assert forall|k: int| 0 <= k < address_parts(xs).len() implies (#[trigger] address_parts(
                xs,
            )[k]).len() >= 1 by {
                lemma_be_u128_len(xs[k].value);
            }
            lemma_concat_all_len(address_parts(xs));
            assert(xs.len() <= total);
        }
    }
    let (n, start) = match read_uleb128(data, pos) {
        Some(read) => read,
        None => {
            return None;
        },
    };
    let mut items: Vec<AccountAddress> = Vec::new();
    let mut p: usize = start;
    let mut i: usize = 0;
    proof {
        assert forall|xs: Seq<AccountAddress>| #[trigger]
            reads(data@, pos as int, sequence(address_parts(xs))) implies concat_all(
            address_parts(xs).take(0),
        ).len() == 0 by {
            assert(address_parts(xs).take(0) =~= Seq::<Seq<u8>>::empty());
        }
        assert(address_parts(items@).take(0) =~= Seq::<Seq<u8>>::empty());
        assert(address_parts(items@) =~= Seq::<Seq<u8>>::empty());
        assert(concat_all(address_parts(items@)) =~= Seq::<u8>::empty());
        assert(data@.subrange(start as int, start as int) =~= Seq::<u8>::empty());
    }
    while i < n
        invariant
            i <= n,
            items@.len() == i,
            start <= p <= data@.len(),
            start == pos + uleb128(n as nat).len(),
            reads(data@, pos as int, uleb128(n as nat)),
            forall|xs: Seq<AccountAddress>|
                #[trigger] reads(data@, pos as int, sequence(address_parts(xs))) ==> {
                    &&& xs.len() == n
                    &&& reads(data@, start as int, concat_all(address_parts(xs)))
                    &&& p == start + concat_all(address_parts(xs).take(i as int)).len()
                    &&& forall|j: int| 0 <= j < i ==> items@[j] == xs[j]
                },
            reads(data@, start as int, concat_all(address_parts(items@))),
            p == start + concat_all(address_parts(items@)).len(),
        decreases n - i,
    {
        proof {
            assert forall|xs: Seq<AccountAddress>| #[trigger]
                reads(data@, pos as int, sequence(address_parts(xs))) implies reads(
                data@,
                p as int,
                address_parts(xs)[i as int],
            ) by {
                lemma_concat_all_split(address_parts(xs), i as int);
                lemma_concat_all_push(address_parts(xs), i as int);
                lemma_concat_all_split(address_parts(xs), i as int + 1);
                let before = concat_all(address_parts(xs).take(i as int));
                let item = address_parts(xs)[i as int];
                let after = concat_all(address_parts(xs).skip(i as int + 1));
                lemma_reads_split(data@, start as int, before + item, after);
                lemma_reads_split(data@, start as int, before, item);
            }
        }
        let ghost before_items = items@;
        let (item, next) = match read_address(data, p) {
            Some(read) => read,
            None => {
                return None;
            },
        };
        items.push(item);
        proof {
            let parts = address_parts(items@);
            assert(parts.take(i as int) =~= address_parts(before_items));
            lemma_concat_all_push(parts, i as int);
            assert(parts.take(i as int + 1) =~= parts);
            lemma_reads_split(
                data@,
                start as int,
                concat_all(address_parts(before_items)),
                parts[i as int],
            );
            assert forall|xs: Seq<AccountAddress>| #[trigger]
                reads(data@, pos as int, sequence(address_parts(xs))) implies next == start + concat_all(
                address_parts(xs).take(i as int + 1),
            ).len() by {
                lemma_concat_all_push(address_parts(xs), i as int);
            }
        }
        p = next;
        i += 1;
    }
    proof {
        assert forall|xs: Seq<AccountAddress>| #[trigger]
            reads(data@, pos as int, sequence(address_parts(xs))) implies p == start + concat_all(
            address_parts(xs),
        ).len() by {
            assert(address_parts(xs).take(n as int) =~= address_parts(xs));
        }
        lemma_reads_split(
            data@,
            pos as int,
            uleb128(n as nat),
            concat_all(address_parts(items@)),
        );
    }
    Some((items, p))
}

/// Whether two key bundles are equal, field by field.
pub open spec fn multi_key_eq(a: MultiEd25519PublicKey, b: MultiEd25519PublicKey) -> bool {
    keys_eq(a.public_keys@, b.public_keys@) && a.threshold == b.threshold
}

/// Whether two threshold signatures are equal, field by field.
pub open spec fn multi_signature_eq(a: MultiEd25519Signature, b: MultiEd25519Signature) -> bool {
    signatures_eq(a.signatures@, b.signatures@)
}

/// Reads the key bundle that stands at `pos`.
pub fn decode_multi_key(data: &[u8], pos: usize) -> (r: Option<(MultiEd25519PublicKey, usize)>)
    ensures
        forall|x: MultiEd25519PublicKey|
            #[trigger] reads(data@, pos as int, multi_key_encoding(x)) ==> r is Some
                && multi_key_eq(r->Some_0.0, x) && r->Some_0.1 == pos + multi_key_encoding(x).len(),
        r is Some ==> reads(data@, pos as int, multi_key_encoding(r->Some_0.0)) && r->Some_0.1
            == pos + multi_key_encoding(r->Some_0.0).len(),
{
    proof {
        assert forall|x: MultiEd25519PublicKey| #[trigger]
            reads(data@, pos as int, multi_key_encoding(x)) implies reads(
            data@,
            pos as int,
            sequence(key_parts(x.public_keys@)),
        ) && reads(
            data@,
            pos + sequence(key_parts(x.public_keys@)).len(),
            seq![x.threshold],
        ) by {
            lemma_reads_split(
                data@,
                pos as int,
                sequence(key_parts(x.public_keys@)),
                seq![x.threshold],
            );
        }
    }
    let (public_keys, next1) = match decode_keys(data, pos) {
        Some(read) => read,
        None => {
            return None;
        },
    };
    let (threshold, next2) = match read_u8(data, next1) {
        Some(read) => read,
        None => {
            return None;
        },
    };
    let key = MultiEd25519PublicKey { public_keys, threshold };
    proof {
        lemma_reads_split(
            data@,
            pos as int,
            sequence(key_parts(key.public_keys@)),
            seq![key.threshold],
        );
    }
    Some((key, next2))
}

/// Reads the threshold signature that stands at `pos`.
pub fn decode_multi_signature(data: &[u8], pos: usize) -> (r: Option<
    (MultiEd25519Signature, usize),
>)
    ensures
        forall|x: MultiEd25519Signature|
            #[trigger] reads(data@, pos as int, multi_signature_encoding(x)) ==> r is Some
                && multi_signature_eq(r->Some_0.0, x) && r->Some_0.1 == pos
                + multi_signature_encoding(x).len(),
        r is Some ==> reads(data@, pos as int, multi_signature_encoding(r->Some_0.0))
            && r->Some_0.1 == pos + multi_signature_encoding(r->Some_0.0).len(),
{
    match decode_signatures(data, pos) {
        Some((signatures, next)) => Some((MultiEd25519Signature { signatures }, next)),
        None => None,
    }
}

impl AccountAuthenticator {
    /// Whether two values are equal, field by field.
    pub open spec fn deep_eq(&self, other: AccountAuthenticator) -> bool {
        match (*self, other) {
            (
                AccountAuthenticator::Ed25519 { public_key: a, signature: s },
                AccountAuthenticator::Ed25519 { public_key: b, signature: t },
            ) => a@ == b@ && s@ == t@,
            (
                AccountAuthenticator::MultiEd25519 { public_key: a, signature: s },
                AccountAuthenticator::MultiEd25519 { public_key: b, signature: t },
            ) => multi_key_eq(a, b) && multi_signature_eq(s, t),
            _ => false,
        }
    }

    /// Reads the authenticator that stands at `pos`.
    pub fn decode(data: &[u8], pos: usize) -> (r: Option<(AccountAuthenticator, usize)>)
        ensures
            forall|x: AccountAuthenticator|
                #[trigger] reads(data@, pos as int, x@) ==> r is Some && r->Some_0.0.deep_eq(x)
                    && r->Some_0.1 == pos + x@.len(),
            r is Some ==> reads(data@, pos as int, r->Some_0.0@) && r->Some_0.1 == pos
                + r->Some_0.0@.len(),
    {
        proof {
            assert forall|x: AccountAuthenticator| #[trigger] reads(data@, pos as int, x@) implies match x {
                AccountAuthenticator::Ed25519 { public_key, signature } => reads(
                    data@,
                    pos as int,
                    seq![0u8],
                ) && reads(data@, pos + 1, byte_string(public_key@)) && reads(
                    data@,
                    pos + 1 + byte_string(public_key@).len(),
                    byte_string(signature@),
                ),
                AccountAuthenticator::MultiEd25519 { public_key, signature } => reads(
                    data@,
                    pos as int,
                    seq![1u8],
                ) && reads(data@, pos + 1, multi_key_encoding(public_key)) && reads(
                    data@,
                    pos + 1 + multi_key_encoding(public_key).len(),
                    multi_signature_encoding(signature),
                ),
            } by {
                match x {
                    AccountAuthenticator::Ed25519 { public_key, signature } => {
                        let a = seq![0u8];
                        let b = byte_string(public_key@);
                        let c = byte_string(signature@);
                        lemma_reads_split(data@, pos as int, a + b, c);
                        lemma_reads_split(data@, pos as int, a, b);
                    },
                    AccountAuthenticator::MultiEd25519 { public_key, signature } => {
                        let a = seq![1u8];
                        let b = multi_key_encoding(public_key);
                        let c = multi_signature_encoding(signature);
                        lemma_reads_split(data@, pos as int, a + b, c);
                        lemma_reads_split(data@, pos as int, a, b);
                    },
                }
            }
        }
        let (tag, next1) = match read_u8(data, pos) {
            Some(read) => read,
            None => {
                return None;
            },
        };
        if tag == 0 {
            let (public_key, next2) = match read_public_key(data, next1) {
                Some(read) => read,
                None => {
                    return None;
                },
            };
            let (signature, next3) = match read_signature(data, next2) {
                Some(read) => read,
                None => {
                    return None;
                },
            };
            proof {
                let a = seq![0u8];
                let b = byte_string(public_key@);
                let c = byte_string(signature@);
                lemma_reads_split(data@, pos as int, a, b);
                lemma_reads_split(data@, pos as int, a + b, c);
            }
            Some((AccountAuthenticator::Ed25519 { public_key, signature }, next3))
        } else if tag == 1 {
            let (public_key, next2) = match decode_multi_key(data, next1) {
                Some(read) => read,
                None => {
                    return None;
                },
            };
            let (signature, next3) = match decode_multi_signature(data, next2) {
                Some(read) => read,
                None => {
                    return None;
                },
            };
            proof {
                let a = seq![1u8];
                let b = multi_key_encoding(public_key);
                let c = multi_signature_encoding(signature);
                lemma_reads_split(data@, pos as int, a, b);
                lemma_reads_split(data@, pos as int, a + b, c);
            }
            Some((AccountAuthenticator::MultiEd25519 { public_key, signature }, next3))
        } else {
            None
        }
    }
}

/// Whether two lists hold equal items at the same places.
pub open spec fn authenticators_eq(a: Seq<AccountAuthenticator>, b: Seq<AccountAuthenticator>) -> bool {
    &&& a.len() == b.len()
    &&& forall|j: int| 0 <= j < a.len() ==> a[j].deep_eq(b[j])
}

/// Reads the list of authenticators that stands at `pos`.
#[verifier::rlimit(40)]
pub fn decode_authenticators(data: &[u8], pos: usize) -> (r: Option<(Vec<AccountAuthenticator>, usize)>)
    ensures
        forall|xs: Seq<AccountAuthenticator>|
            #[trigger] reads(data@, pos as int, sequence(authenticator_parts(xs))) ==> r is Some && authenticators_eq(
                r->Some_0.0@,
                xs,
            ) && r->Some_0.1 == pos + sequence(authenticator_parts(xs)).len(),
        r is Some ==> reads(data@, pos as int, sequence(authenticator_parts(r->Some_0.0@))) && r->Some_0.1
            == pos + sequence(authenticator_parts(r->Some_0.0@)).len(),
{
    let total = data.len();
    proof {
        assert forall|xs: Seq<AccountAuthenticator>| #[trigger]
            reads(data@, pos as int, sequence(authenticator_parts(xs))) implies reads(
            data@,
            pos as int,
            uleb128(xs.len()),
        ) && reads(data@, pos + uleb128(xs.len()).len(), concat_all(authenticator_parts(xs))) && xs.len()
            <= usize::MAX by {
            lemma_reads_split(data@, pos as int, uleb128(xs.len()), concat_all(authenticator_parts(xs)));
            assert forall|k: int| 0 <= k < authenticator_parts(xs).len() implies (#[trigger] authenticator_parts(
                xs,
            )[k]).len() >= 1 by {
                match xs[k] {
                    AccountAuthenticator::Ed25519 { public_key, signature } => {},
                    AccountAuthenticator::MultiEd25519 { public_key, signature } => {},
                }
            }
            lemma_concat_all_len(authenticator_parts(xs));
            assert(xs.len() <= total);
        }
    }
    let (n, start) = match read_uleb128(data, pos) {
        Some(read) => read,
        None => {
            return None;
        },
    };
    let mut items: Vec<AccountAuthenticator> = Vec::new();
    let mut p: usize = start;
    let mut i: usize = 0;
    proof {
        assert forall|xs: Seq<AccountAuthenticator>| #[trigger]
            reads(data@, pos as int, sequence(authenticator_parts(xs))) implies concat_all(
            authenticator_parts(xs).take(0),
        ).len() == 0 by {
            assert(authenticator_parts(xs).take(0) =~= Seq::<Seq<u8>>::empty());
        }
        assert(authenticator_parts(items@).take(0) =~= Seq::<Seq<u8>>::empty());
        assert(authenticator_parts(items@) =~= Seq::<Seq<u8>>::empty());
        assert(concat_all(authenticator_parts(items@)) =~= Seq::<u8>::empty());
        assert(data@.subrange(start as int, start as int) =~= Seq::<u8>::empty());
    }
    while i < n
        invariant
            i <= n,
            items@.len() == i,
            start <= p <= data@.len(),
            start == pos + uleb128(n as nat).len(),
            reads(data@, pos as int, uleb128(n as nat)),
            forall|xs: Seq<AccountAuthenticator>|
                #[trigger] reads(data@, pos as int, sequence(authenticator_parts(xs))) ==> {
                    &&& xs.len() == n
                    &&& reads(data@, start as int, concat_all(authenticator_parts(xs)))
                    &&& p == start + concat_all(authenticator_parts(xs).take(i as int)).len()
                    &&& forall|j: int| 0 <= j < i ==> items@[j].deep_eq(xs[j])
                },
            reads(data@, start as int, concat_all(authenticator_parts(items@))),
            p == start + concat_all(authenticator_parts(items@)).len(),
        decreases n - i,
    {
        proof {
            assert forall|xs: Seq<AccountAuthenticator>| #[trigger]
                reads(data@, pos as int, sequence(authenticator_parts(xs))) implies reads(
                data@,
                p as int,
                authenticator_parts(xs)[i as int],
            ) by {
                lemma_concat_all_split(authenticator_parts(xs), i as int);
                lemma_concat_all_push(authenticator_parts(xs), i as int);
                lemma_concat_all_split(authenticator_parts(xs), i as int + 1);
                let before = concat_all(authenticator_parts(xs).take(i as int));
                let item = authenticator_parts(xs)[i as int];
                let after = concat_all(authenticator_parts(xs).skip(i as int + 1));
                lemma_reads_split(data@, start as int, before + item, after);
                lemma_reads_split(data@, start as int, before, item);
            }
        }
        let ghost before_items = items@;
        let (item, next) = match AccountAuthenticator::decode(data, p) {
            Some(read) => read,
            None => {
                return None;
            },
        };
        items.push(item);
        proof {
            let parts = authenticator_parts(items@);
            assert(parts.take(i as int) =~= authenticator_parts(before_items));
            lemma_concat_all_push(parts, i as int);
            assert(parts.take(i as int + 1) =~= parts);
            lemma_reads_split(
                data@,
                start as int,
                concat_all(authenticator_parts(before_items)),
                parts[i as int],
            );
            assert forall|xs: Seq<AccountAuthenticator>| #[trigger]
                reads(data@, pos as int, sequence(authenticator_parts(xs))) implies next == start + concat_all(
                authenticator_parts(xs).take(i as int + 1),
            ).len() by {
                lemma_concat_all_push(authenticator_parts(xs), i as int);
            }
        }
        p = next;
        i += 1;
    }
    proof {
        assert forall|xs: Seq<AccountAuthenticator>| #[trigger]
            reads(data@, pos as int, sequence(authenticator_parts(xs))) implies p == start + concat_all(
            authenticator_parts(xs),
        ).len() by {
            assert(authenticator_parts(xs).take(n as int) =~= authenticator_parts(xs));
        }
        lemma_reads_split(
            data@,
            pos as int,
            uleb128(n as nat),
            concat_all(authenticator_parts(items@)),
        );
    }
    Some((items, p))
}

impl TransactionAuthenticator {
    /// Whether two values are equal, field by field.
    pub open spec fn deep_eq(&self, other: TransactionAuthenticator) -> bool {
        match (*self, other) {
            (
                TransactionAuthenticator::Ed25519 { public_key: a, signature: s },
                TransactionAuthenticator::Ed25519 { public_key: b, signature: t },
            ) => a@ == b@ && s@ == t@,
            (
                TransactionAuthenticator::MultiEd25519 { public_key: a, signature: s },
                TransactionAuthenticator::MultiEd25519 { public_key: b, signature: t },
            ) => multi_key_eq(a, b) && multi_signature_eq(s, t),
            (
                TransactionAuthenticator::MultiAgent {
                    sender: a,
                    secondary_signer_addresses: m,
                    secondary_signers: s,
                },
                TransactionAuthenticator::MultiAgent {
                    sender: b,
                    secondary_signer_addresses: n,
                    secondary_signers: t,
                },
            ) => a.deep_eq(b) && addresses_eq(m@, n@) && authenticators_eq(s@, t@),
            _ => false,
        }
    }

    /// Reads the authenticator that stands at `pos`.
    #[verifier::rlimit(40)]
    pub fn decode(data: &[u8], pos: usize) -> (r: Option<(TransactionAuthenticator, usize)>)
        ensures
            forall|x: TransactionAuthenticator|
                #[trigger] reads(data@, pos as int, x@) ==> r is Some && r->Some_0.0.deep_eq(x)
                    && r->Some_0.1 == pos + x@.len(),
            r is Some ==> reads(data@, pos as int, r->Some_0.0@) && r->Some_0.1 == pos
                + r->Some_0.0@.len(),
    {
        proof {
            assert forall|x: TransactionAuthenticator| #[trigger] reads(data@, pos as int, x@) implies match x {
                TransactionAuthenticator::Ed25519 { public_key, signature } => reads(
                    data@,
                    pos as int,
                    seq![0u8],
                ) && reads(data@, pos + 1, byte_string(public_key@)) && reads(
                    data@,
                    pos + 1 + byte_string(public_key@).len(),
                    byte_string(signature@),
                ),
                TransactionAuthenticator::MultiEd25519 { public_key, signature } => reads(
                    data@,
                    pos as int,
                    seq![1u8],
                ) && reads(data@, pos + 1, multi_key_encoding(public_key)) && reads(
                    data@,
                    pos + 1 + multi_key_encoding(public_key).len(),
                    multi_signature_encoding(signature),
                ),
                TransactionAuthenticator::MultiAgent {
                    sender,
                    secondary_signer_addresses,
                    secondary_signers,
                } => reads(data@, pos as int, seq![2u8]) && reads(data@, pos + 1, sender@) && reads(
                    data@,
                    pos + 1 + sender@.len(),
                    sequence(address_parts(secondary_signer_addresses@)),
                ) && reads(
                    data@,
                    pos + 1 + sender@.len() + sequence(
                        address_parts(secondary_signer_addresses@),
                    ).len(),
                    sequence(authenticator_parts(secondary_signers@)),
                ),
            } by {
                match x {
                    TransactionAuthenticator::Ed25519 { public_key, signature } => {
                        let a = seq![0u8];
                        let b = byte_string(public_key@);
                        let c = byte_string(signature@);
                        lemma_reads_split(data@, pos as int, a + b, c);
                        lemma_reads_split(data@, pos as int, a, b);
                    },
                    TransactionAuthenticator::MultiEd25519 { public_key, signature } => {
                        let a = seq![1u8];
                        let b = multi_key_encoding(public_key);
                        let c = multi_signature_encoding(signature);
                        lemma_reads_split(data@, pos as int, a + b, c);
                        lemma_reads_split(data@, pos as int, a, b);
                    },
                    TransactionAuthenticator::MultiAgent {
                        sender,
                        secondary_signer_addresses,
                        secondary_signers,
                    } => {
                        let a = seq![2u8];
                        let b = sender@;
                        let c = sequence(address_parts(secondary_signer_addresses@));
                        let d = sequence(authenticator_parts(secondary_signers@));
                        lemma_reads_split(data@, pos as int, a + b + c, d);
                        lemma_reads_split(data@, pos as int, a + b, c);
                        lemma_reads_split(data@, pos as int, a, b);
                    },
                }
            }
        }
        let (tag, next1) = match read_u8(data, pos) {
            Some(read) => read,
            None => {
                return None;
            },
        };
        if tag == 0 {
            let (public_key, next2) = match read_public_key(data, next1) {
                Some(read) => read,
                None => {
                    return None;
                },
            };
            let (signature, next3) = match read_signature(data, next2) {
                Some(read) => read,
                None => {
                    return None;
                },
            };
            proof {
                let a = seq![0u8];
                let b = byte_string(public_key@);
                let c = byte_string(signature@);
                lemma_reads_split(data@, pos as int, a, b);
                lemma_reads_split(data@, pos as int, a + b, c);
            }
            Some((TransactionAuthenticator::Ed25519 { public_key, signature }, next3))
        } else if tag == 1 {
            let (public_key, next2) = match decode_multi_key(data, next1) {
                Some(read) => read,
                None => {
                    return None;
                },
            };
            let (signature, next3) = match decode_multi_signature(data, next2) {
                Some(read) => read,
                None => {
                    return None;
                },
            };
            proof {
                let a = seq![1u8];
                let b = multi_key_encoding(public_key);
                let c = multi_signature_encoding(signature);
                lemma_reads_split(data@, pos as int, a, b);
                lemma_reads_split(data@, pos as int, a + b, c);
            }
            Some((TransactionAuthenticator::MultiEd25519 { public_key, signature }, next3))
        } else if tag == 2 {
            let (sender, next2) = match AccountAuthenticator::decode(data, next1) {
                Some(read) => read,
                None => {
                    return None;
                },
            };
            let (secondary_signer_addresses, next3) = match decode_addresses(data, next2) {
                Some(read) => read,
                None => {
                    return None;
                },
            };
            let (secondary_signers, next4) = match decode_authenticators(data, next3) {
                Some(read) => read,
                None => {
                    return None;
                },
            };
            proof {
                let a = seq![2u8];
                let b = sender@;
                let c = sequence(address_parts(secondary_signer_addresses@));
                let d = sequence(authenticator_parts(secondary_signers@));
                lemma_reads_split(data@, pos as int, a, b);
                lemma_reads_split(data@, pos as int, a + b, c);
                lemma_reads_split(data@, pos as int, a + b + c, d);
            }
            Some(
                (
                    TransactionAuthenticator::MultiAgent {
                        sender,
                        secondary_signer_addresses,
                        secondary_signers,
                    },
                    next4,
                ),
            )
        } else {
            None
        }
    }
}

impl SignedTransaction {
    /// Whether two values are equal, field by field.
    pub open spec fn deep_eq(&self, other: SignedTransaction) -> bool {
        &&& self.raw_txn.deep_eq(other.raw_txn)
        &&& self.authenticator.deep_eq(other.authenticator)
    }

    /// Reads the signed transaction that stands at `pos`.
    pub fn decode(data: &[u8], pos: usize) -> (r: Option<(SignedTransaction, usize)>)
        ensures
            forall|x: SignedTransaction|
                #[trigger] reads(data@, pos as int, x@) ==> r is Some && r->Some_0.0.deep_eq(x)
                    && r->Some_0.1 == pos + x@.len(),
            r is Some ==> reads(data@, pos as int, r->Some_0.0@) && r->Some_0.1 == pos
                + r->Some_0.0@.len(),
    {
        proof {
            assert forall|x: SignedTransaction| #[trigger] reads(data@, pos as int, x@) implies {
                &&& reads(data@, pos as int, x.raw_txn@)
                &&& reads(data@, pos + (x.raw_txn@).len(), x.authenticator@)
            } by {
                lemma_reads_split(data@, pos as int, x.raw_txn@, x.authenticator@);
            }
        }
        let (raw_txn, next1) = match RawTransaction::decode(data, pos) {
            Some(read) => read,
            None => {
                return None;
            },
        };
        let (authenticator, next2) = match TransactionAuthenticator::decode(data, next1) {
            Some(read) => read,
            None => {
                return None;
            },
        };
        let value = SignedTransaction { raw_txn, authenticator };
        proof {
            lemma_reads_split(data@, pos as int, value.raw_txn@, value.authenticator@);
        }
        Some((value, next2))
    }
}

impl SignedTransaction {
    /// Reads a signed transaction from its canonical encoding. The bytes of
    /// any signed transaction give an equal one back; bytes that are the
    /// canonical encoding of none give nothing.
    pub fn from_bytes(bytes: &[u8]) -> (r: Option<SignedTransaction>)
        ensures
            forall|x: SignedTransaction| #[trigger] x@ == bytes@ ==> r is Some && r->Some_0.deep_eq(x),
            r is Some ==> r->Some_0@ == bytes@,
    {
        proof {
            assert forall|x: SignedTransaction| #[trigger] x@ == bytes@ implies reads(
                bytes@,
                0,
                x@,
            ) by {
                assert(bytes@.subrange(0, bytes@.len() as int) =~= bytes@);
            }
        }
        match SignedTransaction::decode(bytes, 0) {
            Some((txn, next)) => {
                if next == bytes.len() {
                    assert(bytes@.subrange(0, bytes@.len() as int) =~= bytes@);
                    Some(txn)
                } else {
                    None
                }
            },
            None => None,
        }
    }
}

} // verus!
