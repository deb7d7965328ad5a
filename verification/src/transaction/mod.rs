//! Transactions as clients sign them and as the ledger includes them.

pub mod authenticator;
pub mod decode;
pub mod with_proof;
pub mod status;

use crate::account_address::AccountAddress;
use crate::bytes::{append, be_u128, bytes_equal, le_u64};
use crate::crypto::{
    ed25519_public, ed25519_signature, ed25519_valid, Ed25519PrivateKey, Ed25519PublicKey,
    Ed25519Signature, MultiEd25519PublicKey, MultiEd25519Signature,
};
use crate::transaction::authenticator::{
    address_parts, all_verify, clone_addresses, encode_addresses, AccountAuthenticator,
    TransactionAuthenticator,
};
use vstd::utf8::encode_utf8;
use crate::codec::{
    byte_string, concat_all, lemma_concat_all_push, sequence, write_byte_string, write_u64,
    write_u8, write_uleb128,
};
use crate::hash::{HashDomain, HashValue};
use vstd::prelude::*;

verus! {

/// The version of a transaction: its position in the ledger.
pub type Version = u64;

/// The version under which the genesis transaction reads the state.
pub const PRE_GENESIS_VERSION: Version = 0xffff_ffff_ffff_ffff;

/// The name of the currency that write-set transactions name for gas.
pub open spec fn spec_xus_name() -> &'static str {
    "XUS"
}

/// The network that a transaction is meant for.
#[derive(Clone, Copy, Debug, PartialEq, Eq, Hash, Structural)]
pub struct ChainId(pub u8);

impl ChainId {
    pub fn new(id: u8) -> (r: Self)
        ensures
            r.0 == id,
    {
        ChainId(id)
    }

    pub fn id(&self) -> (r: u8)
        ensures
            r == self.0,
    {
        self.0
    }
}

/// Code to run, with its type arguments and arguments. Both lists are held in
/// their canonical encoding.
#[derive(Debug, PartialEq, Eq)]
pub struct Script {
    pub code: Vec<u8>,
    pub type_args: Vec<u8>,
    pub args: Vec<u8>,
}

impl View for Script {
    type V = Seq<u8>;

    /// The canonical encoding: the three byte strings in turn.
    open spec fn view(&self) -> Seq<u8> {
        byte_string(self.code@) + byte_string(self.type_args@) + byte_string(self.args@)
    }
}

impl Clone for Script {
    fn clone(&self) -> (r: Self)
        ensures
            r@ == self@,
            r.code@ == self.code@,
            r.type_args@ == self.type_args@,
            r.args@ == self.args@,
    {
        Script { code: self.code.clone(), type_args: self.type_args.clone(), args: self.args.clone() }
    }
}

impl Script {
    pub fn new(code: Vec<u8>, type_args: Vec<u8>, args: Vec<u8>) -> (r: Self)
        ensures
            r.code == code,
            r.type_args == type_args,
            r.args == args,
    {
        Script { code, type_args, args }
    }

    pub fn code(&self) -> (r: &[u8])
        ensures
            r@ == self.code@,
    {
        self.code.as_slice()
    }

    /// Appends the canonical encoding.
    pub fn encode(&self, out: &mut Vec<u8>)
        ensures
            final(out)@ == old(out)@ + self@,
    {
        write_byte_string(out, self.code.as_slice());
        write_byte_string(out, self.type_args.as_slice());
        write_byte_string(out, self.args.as_slice());
        assert(out@ =~= old(out)@ + self@);
    }
}

/// Code to publish.
#[derive(Debug, PartialEq, Eq)]
pub struct Module {
    pub code: Vec<u8>,
}

impl View for Module {
    type V = Seq<u8>;

    /// The canonical encoding: the code as a byte string.
    open spec fn view(&self) -> Seq<u8> {
        byte_string(self.code@)
    }
}

impl Clone for Module {
    fn clone(&self) -> (r: Self)
        ensures
            r@ == self@,
            r.code@ == self.code@,
    {
        Module { code: self.code.clone() }
    }
}

impl Module {
    pub fn new(code: Vec<u8>) -> (r: Self)
        ensures
            r.code == code,
    {
        Module { code }
    }

    pub fn code(&self) -> (r: &[u8])
        ensures
            r@ == self.code@,
    {
        self.code.as_slice()
    }

    /// Appends the canonical encoding.
    pub fn encode(&self, out: &mut Vec<u8>)
        ensures
            final(out)@ == old(out)@ + self@,
    {
        write_byte_string(out, self.code.as_slice());
    }
}

/// A call of a script function that a module on chain publishes. The lists of
/// type arguments and arguments are held in their canonical encoding.
#[derive(Debug, PartialEq, Eq)]
pub struct ScriptFunction {
    pub module_address: AccountAddress,
    pub module_name: Vec<u8>,
    pub function: Vec<u8>,
    pub type_args: Vec<u8>,
    pub args: Vec<u8>,
}

impl View for ScriptFunction {
    type V = Seq<u8>;

    /// The canonical encoding: the module's address and name, the function's
    /// name, the type arguments and the arguments.
    open spec fn view(&self) -> Seq<u8> {
        be_u128(self.module_address.value) + byte_string(self.module_name@) + byte_string(
            self.function@,
        ) + byte_string(self.type_args@) + byte_string(self.args@)
    }
}

impl Clone for ScriptFunction {
    fn clone(&self) -> (r: Self)
        ensures
            r@ == self@,
    {
        ScriptFunction {
            module_address: self.module_address,
            module_name: self.module_name.clone(),
            function: self.function.clone(),
            type_args: self.type_args.clone(),
            args: self.args.clone(),
        }
    }
}

impl ScriptFunction {
    pub fn new(
        module_address: AccountAddress,
        module_name: Vec<u8>,
        function: Vec<u8>,
        type_args: Vec<u8>,
        args: Vec<u8>,
    ) -> (r: Self)
        ensures
            r.module_address == module_address,
            r.module_name == module_name,
            r.function == function,
            r.type_args == type_args,
            r.args == args,
    {
        ScriptFunction { module_address, module_name, function, type_args, args }
    }

    /// Appends the canonical encoding.
    pub fn encode(&self, out: &mut Vec<u8>)
        ensures
            final(out)@ == old(out)@ + self@,
    {
        let address = self.module_address.to_bytes();
        append(out, &address);
        write_byte_string(out, self.module_name.as_slice());
        write_byte_string(out, self.function.as_slice());
        write_byte_string(out, self.type_args.as_slice());
        write_byte_string(out, self.args.as_slice());
        assert(out@ =~= old(out)@ + self@);
    }
}

/// The writes of a transaction, held in their canonical encoding.
#[derive(Debug, PartialEq, Eq)]
pub struct WriteSet {
    pub bytes: Vec<u8>,
}

impl View for WriteSet {
    type V = Seq<u8>;

    /// The canonical encoding: the writes as a byte string.
    open spec fn view(&self) -> Seq<u8> {
        byte_string(self.bytes@)
    }
}

impl Clone for WriteSet {
    fn clone(&self) -> (r: Self)
        ensures
            r@ == self@,
            r.bytes@ == self.bytes@,
    {
        WriteSet { bytes: self.bytes.clone() }
    }
}

impl WriteSet {
    pub fn new(bytes: Vec<u8>) -> (r: Self)
        ensures
            r.bytes == bytes,
    {
        WriteSet { bytes }
    }

    /// Appends the canonical encoding.
    pub fn encode(&self, out: &mut Vec<u8>)
        ensures
            final(out)@ == old(out)@ + self@,
    {
        write_byte_string(out, self.bytes.as_slice());
    }
}

/// An event that a transaction emitted.
#[derive(Debug, PartialEq, Eq)]
pub struct ContractEvent {
    pub key: Vec<u8>,
    pub sequence_number: u64,
    pub type_tag: Vec<u8>,
    pub event_data: Vec<u8>,
}

impl View for ContractEvent {
    type V = Seq<u8>;

    /// The canonical encoding: the key, the sequence number, the type and the
    /// data.
    open spec fn view(&self) -> Seq<u8> {
        byte_string(self.key@) + le_u64(self.sequence_number) + byte_string(self.type_tag@)
            + byte_string(self.event_data@)
    }
}

impl Clone for ContractEvent {
    fn clone(&self) -> (r: Self)
        ensures
            r@ == self@,
    {
        ContractEvent {
            key: self.key.clone(),
            sequence_number: self.sequence_number,
            type_tag: self.type_tag.clone(),
            event_data: self.event_data.clone(),
        }
    }
}

impl ContractEvent {
    pub fn new(key: Vec<u8>, sequence_number: u64, type_tag: Vec<u8>, event_data: Vec<u8>) -> (r:
        Self)
        ensures
            r.key == key,
            r.sequence_number == sequence_number,
            r.type_tag == type_tag,
            r.event_data == event_data,
    {
        ContractEvent { key, sequence_number, type_tag, event_data }
    }

    /// Appends the canonical encoding.
    pub fn encode(&self, out: &mut Vec<u8>)
        ensures
            final(out)@ == old(out)@ + self@,
    {
        write_byte_string(out, self.key.as_slice());
        write_u64(out, self.sequence_number);
        write_byte_string(out, self.type_tag.as_slice());
        write_byte_string(out, self.event_data.as_slice());
        assert(out@ =~= old(out)@ + self@);
    }

    /// The hash of the event: the hash of its canonical encoding among
    /// events.
    pub open spec fn spec_hash(&self) -> Seq<u8> {
        HashDomain::ContractEvent.hash_of(self@)
    }

    pub fn hash(&self) -> (r: HashValue)
        ensures
            r@ == self.spec_hash(),
    {
        let mut bytes: Vec<u8> = Vec::new();
        self.encode(&mut bytes);
        HashDomain::ContractEvent.hash(bytes.as_slice())
    }
}

/// The canonical encodings of the events of a list, one by one.
pub open spec fn event_parts(events: Seq<ContractEvent>) -> Seq<Seq<u8>> {
    Seq::new(events.len(), |i: int| events[i]@)
}

/// Copies a list of events.
pub fn clone_events(events: &Vec<ContractEvent>) -> (r: Vec<ContractEvent>)
    ensures
        event_parts(r@) == event_parts(events@),
{
    let mut r: Vec<ContractEvent> = Vec::new();
    let mut i: usize = 0;
    while i < events.len()
        invariant
            i <= events.len(),
            r@.len() == i,
            forall|j: int| 0 <= j < i ==> r@[j]@ == events@[j]@,
        decreases events.len() - i,
    {
        r.push(events[i].clone());
        i += 1;
    }
    assert(event_parts(r@) =~= event_parts(events@));
    r
}

/// Appends the canonical encoding of a list of events.
pub fn encode_events(events: &Vec<ContractEvent>, out: &mut Vec<u8>)
    ensures
        final(out)@ == old(out)@ + sequence(event_parts(events@)),
{
    write_uleb128(out, events.len());
    let ghost parts = event_parts(events@);
    let ghost head = out@;
    let mut i: usize = 0;
    assert(concat_all(parts.take(0)) =~= Seq::<u8>::empty());
    while i < events.len()
        invariant
            i <= events.len(),
            parts == event_parts(events@),
            out@ == head + concat_all(parts.take(i as int)),
        decreases events.len() - i,
    {
        events[i].encode(out);
        proof {
            lemma_concat_all_push(parts, i as int);
        }
        i += 1;
        assert(out@ =~= head + concat_all(parts.take(i as int)));
    }
    assert(parts.take(i as int) =~= parts);
    assert(out@ =~= old(out)@ + sequence(parts));
}

/// Writes and events to apply to the ledger as they stand.
#[derive(Debug, PartialEq, Eq)]
pub struct ChangeSet {
    pub write_set: WriteSet,
    pub events: Vec<ContractEvent>,
}

impl View for ChangeSet {
    type V = Seq<u8>;

    /// The canonical encoding: the writes, then the list of events.
    open spec fn view(&self) -> Seq<u8> {
        self.write_set@ + sequence(event_parts(self.events@))
    }
}

impl Clone for ChangeSet {
    fn clone(&self) -> (r: Self)
        ensures
            r@ == self@,
    {
        ChangeSet { write_set: self.write_set.clone(), events: clone_events(&self.events) }
    }
}

impl ChangeSet {
    pub fn new(write_set: WriteSet, events: Vec<ContractEvent>) -> (r: Self)
        ensures
            r.write_set == write_set,
            r.events == events,
    {
        ChangeSet { write_set, events }
    }

    /// Appends the canonical encoding.
    pub fn encode(&self, out: &mut Vec<u8>)
        ensures
            final(out)@ == old(out)@ + self@,
    {
        self.write_set.encode(out);
        encode_events(&self.events, out);
        assert(out@ =~= old(out)@ + self@);
    }
}

/// Two different kinds of write-set transactions.
#[derive(Debug, PartialEq, Eq)]
pub enum WriteSetPayload {
    /// The writes are given as they stand.
    Direct(ChangeSet),
    /// The writes come from running a script as the designated signer.
    Script { execute_as: AccountAddress, script: Script },
}

impl View for WriteSetPayload {
    type V = Seq<u8>;

    /// The canonical encoding: the number of the kind, then its fields.
    open spec fn view(&self) -> Seq<u8> {
        match self {
            WriteSetPayload::Direct(change_set) => seq![0u8] + change_set@,
            WriteSetPayload::Script { execute_as, script } => seq![1u8] + be_u128(
                execute_as.value,
            ) + script@,
        }
    }
}

impl Clone for WriteSetPayload {
    fn clone(&self) -> (r: Self)
        ensures
            r@ == self@,
            r is Direct <==> self is Direct,
    {
        match self {
            WriteSetPayload::Direct(change_set) => WriteSetPayload::Direct(change_set.clone()),
            WriteSetPayload::Script { execute_as, script } => WriteSetPayload::Script {
                execute_as: *execute_as,
                script: script.clone(),
            },
        }
    }
}

impl WriteSetPayload {
    /// Writes given as they stand reconfigure the network; a script does not.
    pub fn should_trigger_reconfiguration_by_default(&self) -> (r: bool)
        ensures
            r == (self is Direct),
    {
        match self {
            WriteSetPayload::Direct(_) => true,
            WriteSetPayload::Script { .. } => false,
        }
    }

    /// Appends the canonical encoding.
    pub fn encode(&self, out: &mut Vec<u8>)
        ensures
            final(out)@ == old(out)@ + self@,
    {
        match self {
            WriteSetPayload::Direct(change_set) => {
                write_u8(out, 0);
                change_set.encode(out);
            },
            WriteSetPayload::Script { execute_as, script } => {
                write_u8(out, 1);
                let address = execute_as.to_bytes();
                append(out, &address);
                script.encode(out);
            },
        }
        assert(out@ =~= old(out)@ + self@);
    }
}

/// Different kinds of transactions.
#[derive(Debug, PartialEq, Eq)]
pub enum TransactionPayload {
    /// A system maintenance transaction.
    WriteSet(WriteSetPayload),
    /// A transaction that executes code.
    Script(Script),
    /// A transaction that publishes code.
    Module(Module),
    /// A transaction that executes a script function published on chain.
    ScriptFunction(ScriptFunction),
}

impl View for TransactionPayload {
    type V = Seq<u8>;

    /// The canonical encoding: the number of the kind, then its fields.
    open spec fn view(&self) -> Seq<u8> {
        match self {
            TransactionPayload::WriteSet(p) => seq![0u8] + p@,
            TransactionPayload::Script(p) => seq![1u8] + p@,
            TransactionPayload::Module(p) => seq![2u8] + p@,
            TransactionPayload::ScriptFunction(p) => seq![3u8] + p@,
        }
    }
}

impl Clone for TransactionPayload {
    fn clone(&self) -> (r: Self)
        ensures
            r@ == self@,
            r.spec_should_trigger_reconfiguration() == self.spec_should_trigger_reconfiguration(),
    {
        match self {
            TransactionPayload::WriteSet(p) => TransactionPayload::WriteSet(p.clone()),
            TransactionPayload::Script(p) => TransactionPayload::Script(p.clone()),
            TransactionPayload::Module(p) => TransactionPayload::Module(p.clone()),
            TransactionPayload::ScriptFunction(p) => TransactionPayload::ScriptFunction(p.clone()),
        }
    }
}

impl TransactionPayload {
    /// Only writes given as they stand reconfigure the network by default.
    pub open spec fn spec_should_trigger_reconfiguration(&self) -> bool {
        match self {
            TransactionPayload::WriteSet(p) => p is Direct,
            _ => false,
        }
    }

    pub fn should_trigger_reconfiguration_by_default(&self) -> (r: bool)
        ensures
            r == self.spec_should_trigger_reconfiguration(),
    {
        match self {
            TransactionPayload::WriteSet(ws) => ws.should_trigger_reconfiguration_by_default(),
            TransactionPayload::Script(_) => false,
            TransactionPayload::ScriptFunction(_) => false,
            TransactionPayload::Module(_) => false,
        }
    }

    /// The script function of a payload that holds one.
    pub fn into_script_function(self) -> (r: ScriptFunction)
        requires
            self is ScriptFunction,
        ensures
            r == self->ScriptFunction_0,
    {
        match self {
            TransactionPayload::ScriptFunction(f) => f,
            _ => {
                proof {
                    assert(false);
                }
                ScriptFunction {
                    module_address: AccountAddress { value: 0 },
                    module_name: Vec::new(),
                    function: Vec::new(),
                    type_args: Vec::new(),
                    args: Vec::new(),
                }
            },
        }
    }

    /// Appends the canonical encoding.
    pub fn encode(&self, out: &mut Vec<u8>)
        ensures
            final(out)@ == old(out)@ + self@,
    {
        match self {
            TransactionPayload::WriteSet(p) => {
                write_u8(out, 0);
                p.encode(out);
            },
            TransactionPayload::Script(p) => {
                write_u8(out, 1);
                p.encode(out);
            },
            TransactionPayload::Module(p) => {
                write_u8(out, 2);
                p.encode(out);
            },
            TransactionPayload::ScriptFunction(p) => {
                write_u8(out, 3);
                p.encode(out);
            },
        }
        assert(out@ =~= old(out)@ + self@);
    }

    /// Whether two payloads are the same: whether their canonical encodings
    /// are.
    pub fn same(&self, other: &TransactionPayload) -> (r: bool)
        ensures
            r == (self@ == other@),
    {
        let mut a: Vec<u8> = Vec::new();
        self.encode(&mut a);
        let mut b: Vec<u8> = Vec::new();
        other.encode(&mut b);
        assert(a@ =~= self@);
        assert(b@ =~= other@);
        bytes_equal(a.as_slice(), b.as_slice())
    }
}

/// The portion of a transaction that a client signs.
#[derive(Debug, PartialEq, Eq)]
pub struct RawTransaction {
    /// The sender's address.
    pub sender: AccountAddress,
    /// The sequence number of the transaction, which must match the one
    /// stored in the sender's account when the transaction executes.
    pub sequence_number: u64,
    /// The payload, such as a script to execute.
    pub payload: TransactionPayload,
    /// The most gas to spend on the transaction.
    pub max_gas_amount: u64,
    /// The price to pay for each unit of gas.
    pub gas_unit_price: u64,
    /// The currency in which gas is paid.
    pub gas_currency_code: String,
    /// The time, in seconds since the Unix epoch, from which the transaction
    /// is expired.
    pub expiration_timestamp_secs: u64,
    /// The network that the transaction is meant for.
    pub chain_id: ChainId,
}

impl View for RawTransaction {
    type V = Seq<u8>;

    /// The canonical encoding: the fields in the order of their declaration.
    open spec fn view(&self) -> Seq<u8> {
        be_u128(self.sender.value) + le_u64(self.sequence_number) + self.payload@ + le_u64(
            self.max_gas_amount,
        ) + le_u64(self.gas_unit_price) + byte_string(encode_utf8(self.gas_currency_code@))
            + le_u64(self.expiration_timestamp_secs) + seq![self.chain_id.0]
    }
}

impl Clone for RawTransaction {
    fn clone(&self) -> (r: Self)
        ensures
            r@ == self@,
            r.sender == self.sender,
            r.sequence_number == self.sequence_number,
            r.payload@ == self.payload@,
            r.max_gas_amount == self.max_gas_amount,
            r.gas_unit_price == self.gas_unit_price,
            r.gas_currency_code@ == self.gas_currency_code@,
            r.expiration_timestamp_secs == self.expiration_timestamp_secs,
            r.chain_id == self.chain_id,
    {
        RawTransaction {
            sender: self.sender,
            sequence_number: self.sequence_number,
            payload: self.payload.clone(),
            max_gas_amount: self.max_gas_amount,
            gas_unit_price: self.gas_unit_price,
            gas_currency_code: self.gas_currency_code.clone(),
            expiration_timestamp_secs: self.expiration_timestamp_secs,
            chain_id: self.chain_id,
        }
    }
}

/// The message that the sender and the further signers of a multi-agent
/// transaction sign: the transaction together with the further signers'
/// addresses.
pub open spec fn multi_agent_message(raw_txn: Seq<u8>, addresses: Seq<AccountAddress>) -> Seq<u8> {
    HashDomain::RawTransactionWithData.signing_message(
        seq![0u8] + raw_txn + sequence(address_parts(addresses)),
    )
}

impl RawTransaction {
    /// A transaction with any payload.
    pub fn new(
        sender: AccountAddress,
        sequence_number: u64,
        payload: TransactionPayload,
        max_gas_amount: u64,
        gas_unit_price: u64,
        gas_currency_code: String,
        expiration_timestamp_secs: u64,
        chain_id: ChainId,
    ) -> (r: Self)
        ensures
            r == (RawTransaction {
                sender,
                sequence_number,
                payload,
                max_gas_amount,
                gas_unit_price,
                gas_currency_code,
                expiration_timestamp_secs,
                chain_id,
            }),
    {
        RawTransaction {
            sender,
            sequence_number,
            payload,
            max_gas_amount,
            gas_unit_price,
            gas_currency_code,
            expiration_timestamp_secs,
            chain_id,
        }
    }

    /// A transaction that executes a script.
    pub fn new_script(
        sender: AccountAddress,
        sequence_number: u64,
        script: Script,
        max_gas_amount: u64,
        gas_unit_price: u64,
        gas_currency_code: String,
        expiration_timestamp_secs: u64,
        chain_id: ChainId,
    ) -> (r: Self)
        ensures
            r == (RawTransaction {
                sender,
                sequence_number,
                payload: TransactionPayload::Script(script),
                max_gas_amount,
                gas_unit_price,
                gas_currency_code,
                expiration_timestamp_secs,
                chain_id,
            }),
    {
        RawTransaction {
            sender,
            sequence_number,
            payload: TransactionPayload::Script(script),
            max_gas_amount,
            gas_unit_price,
            gas_currency_code,
            expiration_timestamp_secs,
            chain_id,
        }
    }

    /// A transaction that executes a script function.
    pub fn new_script_function(
        sender: AccountAddress,
        sequence_number: u64,
        script_function: ScriptFunction,
        max_gas_amount: u64,
        gas_unit_price: u64,
        gas_currency_code: String,
        expiration_timestamp_secs: u64,
        chain_id: ChainId,
    ) -> (r: Self)
        ensures
            r == (RawTransaction {
                sender,
                sequence_number,
                payload: TransactionPayload::ScriptFunction(script_function),
                max_gas_amount,
                gas_unit_price,
                gas_currency_code,
                expiration_timestamp_secs,
                chain_id,
            }),
    {
        RawTransaction {
            sender,
            sequence_number,
            payload: TransactionPayload::ScriptFunction(script_function),
            max_gas_amount,
            gas_unit_price,
            gas_currency_code,
            expiration_timestamp_secs,
            chain_id,
        }
    }

    /// A transaction that publishes a module.
    pub fn new_module(
        sender: AccountAddress,
        sequence_number: u64,
        module: Module,
        max_gas_amount: u64,
        gas_unit_price: u64,
        gas_currency_code: String,
        expiration_timestamp_secs: u64,
        chain_id: ChainId,
    ) -> (r: Self)
        ensures
            r == (RawTransaction {
                sender,
                sequence_number,
                payload: TransactionPayload::Module(module),
                max_gas_amount,
                gas_unit_price,
                gas_currency_code,
                expiration_timestamp_secs,
                chain_id,
            }),
    {
        RawTransaction {
            sender,
            sequence_number,
            payload: TransactionPayload::Module(module),
            max_gas_amount,
            gas_unit_price,
            gas_currency_code,
            expiration_timestamp_secs,
            chain_id,
        }
    }

    /// A write-set transaction that applies `write_set` and emits no event.
    pub fn new_write_set(
        sender: AccountAddress,
        sequence_number: u64,
        write_set: WriteSet,
        chain_id: ChainId,
    ) -> (r: Self)
        ensures
            r.sender == sender,
            r.sequence_number == sequence_number,
            r.payload matches TransactionPayload::WriteSet(WriteSetPayload::Direct(c))
                && c.write_set == write_set && c.events@.len() == 0,
            r.max_gas_amount == 0,
            r.gas_unit_price == 0,
            r.gas_currency_code@ == spec_xus_name()@,
            r.expiration_timestamp_secs == u64::MAX,
            r.chain_id == chain_id,
    {
        Self::new_change_set(sender, sequence_number, ChangeSet::new(write_set, Vec::new()), chain_id)
    }

    /// A write-set transaction that applies `change_set`. It spends no gas
    /// and expires at the largest time there is.
    pub fn new_change_set(
        sender: AccountAddress,
        sequence_number: u64,
        change_set: ChangeSet,
        chain_id: ChainId,
    ) -> (r: Self)
        ensures
            r.sender == sender,
            r.sequence_number == sequence_number,
            r.payload == TransactionPayload::WriteSet(WriteSetPayload::Direct(change_set)),
            r.max_gas_amount == 0,
            r.gas_unit_price == 0,
            r.gas_currency_code@ == spec_xus_name()@,
            r.expiration_timestamp_secs == u64::MAX,
            r.chain_id == chain_id,
    {
        RawTransaction {
            sender,
            sequence_number,
            payload: TransactionPayload::WriteSet(WriteSetPayload::Direct(change_set)),
            max_gas_amount: 0,
            gas_unit_price: 0,
            gas_currency_code: "XUS".to_owned(),
            expiration_timestamp_secs: 0xffff_ffff_ffff_ffff,
            chain_id,
        }
    }

    /// A write-set transaction whose writes come from running `script` as
    /// `signer`. It spends no gas and expires at the largest time there is.
    pub fn new_writeset_script(
        sender: AccountAddress,
        sequence_number: u64,
        script: Script,
        signer: AccountAddress,
        chain_id: ChainId,
    ) -> (r: Self)
        ensures
            r.sender == sender,
            r.sequence_number == sequence_number,
            r.payload == TransactionPayload::WriteSet(
                WriteSetPayload::Script { execute_as: signer, script },
            ),
            r.max_gas_amount == 0,
            r.gas_unit_price == 0,
            r.gas_currency_code@ == spec_xus_name()@,
            r.expiration_timestamp_secs == u64::MAX,
            r.chain_id == chain_id,
    {
        RawTransaction {
            sender,
            sequence_number,
            payload: TransactionPayload::WriteSet(
                WriteSetPayload::Script { execute_as: signer, script },
            ),
            max_gas_amount: 0,
            gas_unit_price: 0,
            gas_currency_code: "XUS".to_owned(),
            expiration_timestamp_secs: 0xffff_ffff_ffff_ffff,
            chain_id,
        }
    }

    /// The payload of the transaction.
    pub fn into_payload(self) -> (r: TransactionPayload)
        ensures
            r == self.payload,
    {
        self.payload
    }

    /// The sender of the transaction.
    pub fn sender(&self) -> (r: AccountAddress)
        ensures
            r == self.sender,
    {
        self.sender
    }

    /// Appends the canonical encoding.
    pub fn encode(&self, out: &mut Vec<u8>)
        ensures
            final(out)@ == old(out)@ + self@,
    {
        let sender = self.sender.to_bytes();
        append(out, &sender);
        write_u64(out, self.sequence_number);
        self.payload.encode(out);
        write_u64(out, self.max_gas_amount);
        write_u64(out, self.gas_unit_price);
        write_byte_string(out, self.gas_currency_code.as_str().as_bytes());
        write_u64(out, self.expiration_timestamp_secs);
        write_u8(out, self.chain_id.0);
        assert(out@ =~= old(out)@ + self@);
    }

    /// The canonical encoding.
    pub fn to_bytes(&self) -> (r: Vec<u8>)
        ensures
            r@ == self@,
    {
        let mut r: Vec<u8> = Vec::new();
        self.encode(&mut r);
        assert(r@ =~= self@);
        r
    }

    /// The message that the sender signs: the seed of raw transactions and
    /// the canonical encoding.
    pub open spec fn spec_signing_message(&self) -> Seq<u8> {
        HashDomain::RawTransaction.signing_message(self@)
    }

    pub fn signing_message(&self) -> (r: Vec<u8>)
        ensures
            r@ == self.spec_signing_message(),
    {
        let bytes = self.to_bytes();
        HashDomain::RawTransaction.message(bytes.as_slice())
    }

    /// The message that the signers of a multi-agent transaction sign.
    pub fn multi_agent_signing_message(&self, secondary_signer_addresses: &Vec<AccountAddress>) -> (r:
        Vec<u8>)
        ensures
            r@ == multi_agent_message(self@, secondary_signer_addresses@),
    {
        let mut bytes: Vec<u8> = Vec::new();
        write_u8(&mut bytes, 0);
        self.encode(&mut bytes);
        encode_addresses(secondary_signer_addresses, &mut bytes);
        assert(bytes@ =~= seq![0u8] + self@ + sequence(address_parts(secondary_signer_addresses@)));
        HashDomain::RawTransactionWithData.message(bytes.as_slice())
    }

    /// Signs the transaction with `private_key` and checks the signature
    /// under `public_key`. The result is the signed transaction where the
    /// signature is valid under that key, and an error where it is not.
    pub fn sign(self, private_key: &Ed25519PrivateKey, public_key: Ed25519PublicKey) -> (r: Result<
        SignatureCheckedTransaction,
        SignatureError,
    >)
        ensures
            r is Ok <==> ed25519_valid(
                public_key@,
                self.spec_signing_message(),
                ed25519_signature(private_key@, self.spec_signing_message()),
            ),
            r is Ok ==> r->Ok_0.inner().raw_txn == self,
            r is Ok ==> r->Ok_0.inner().authenticator == (TransactionAuthenticator::Ed25519 {
                public_key,
                signature: r->Ok_0.inner().authenticator->Ed25519_signature,
            }),
            r is Ok ==> r->Ok_0.inner().authenticator->Ed25519_signature@ == ed25519_signature(
                private_key@,
                self.spec_signing_message(),
            ),
            r is Err ==> r->Err_0 == SignatureError::InvalidSignature,
    {
        let message = self.signing_message();
        let signature = private_key.sign(message.as_slice());
        SignedTransaction::new(self, public_key, signature).check_signature()
    }

    /// Signs the transaction with `private_key` and checks the signature as
    /// that of a bundle which holds `public_key` alone and asks for one
    /// signature.
    pub fn multi_sign_for_testing(self, private_key: &Ed25519PrivateKey, public_key: Ed25519PublicKey) -> (r:
        Result<SignatureCheckedTransaction, SignatureError>)
        ensures
            r is Ok <==> ed25519_valid(
                public_key@,
                self.spec_signing_message(),
                ed25519_signature(private_key@, self.spec_signing_message()),
            ),
            r is Ok ==> r->Ok_0.inner().raw_txn == self && r->Ok_0.inner().authenticator
                is MultiEd25519,
            r is Err ==> r->Err_0 == SignatureError::InvalidSignature,
    {
        let message = self.signing_message();
        let signature = private_key.sign(message.as_slice());
        let mut public_keys: Vec<Ed25519PublicKey> = Vec::new();
        public_keys.push(public_key);
        let mut signatures: Vec<crate::crypto::IndexedSignature> = Vec::new();
        signatures.push(crate::crypto::IndexedSignature { index: 0, signature });
        let bundle = MultiEd25519PublicKey::new(public_keys, 1);
        let signed = SignedTransaction::new_multisig(
            self,
            bundle,
            MultiEd25519Signature::new(signatures),
        );
        proof {
            let keys = bundle.public_keys@;
            let sigs = signed.authenticator->MultiEd25519_signature.signatures@;
            assert(keys[0]@ == public_key@);
            assert(sigs[0].signature@ == signature@);
        }
        signed.check_signature()
    }

    /// Signs the transaction as the sender and as each of the further
    /// signers, and checks the signatures. The keys of the further signers
    /// come in the order of their addresses; where their number is not that
    /// of the addresses, nothing is signed.
    #[verifier::rlimit(40)]
    pub fn sign_multi_agent(
        self,
        sender_private_key: &Ed25519PrivateKey,
        secondary_signers: Vec<AccountAddress>,
        secondary_private_keys: Vec<&Ed25519PrivateKey>,
    ) -> (r: Result<SignatureCheckedTransaction, SignatureError>)
        ensures
            secondary_private_keys@.len() != secondary_signers@.len() ==> r == Err::<
                SignatureCheckedTransaction,
                SignatureError,
            >(SignatureError::SignerCountMismatch),
            r is Ok <==> {
                &&& secondary_private_keys@.len() == secondary_signers@.len()
                &&& own_signature_valid(
                    sender_private_key@,
                    multi_agent_message(self@, secondary_signers@),
                )
                &&& forall|i: int|
                    0 <= i < secondary_private_keys@.len() ==> own_signature_valid(
                        (#[trigger] secondary_private_keys@[i])@,
                        multi_agent_message(self@, secondary_signers@),
                    )
            },
            r is Ok ==> r->Ok_0.inner().raw_txn == self,
            r is Ok ==> is_multi_agent_signed_by(
                r->Ok_0.inner().authenticator,
                sender_private_key@,
                secondary_signers,
                secondary_private_keys@,
                multi_agent_message(self@, secondary_signers@),
            ),
            r is Err && secondary_private_keys@.len() == secondary_signers@.len() ==> r->Err_0
                == SignatureError::InvalidSignature,
    {
        let message = self.multi_agent_signing_message(&secondary_signers);
        let sender_signature = sender_private_key.sign(message.as_slice());
        let sender_authenticator = AccountAuthenticator::ed25519(
            sender_private_key.public_key(),
            sender_signature,
        );
        if secondary_private_keys.len() != secondary_signers.len() {
            return Err(SignatureError::SignerCountMismatch);
        }
        let mut secondary_authenticators: Vec<AccountAuthenticator> = Vec::new();
        let mut i: usize = 0;
        while i < secondary_private_keys.len()
            invariant
                i <= secondary_private_keys.len(),
                secondary_authenticators@.len() == i,
                forall|j: int|
                    0 <= j < i ==> is_signed_by(
                        #[trigger] secondary_authenticators@[j],
                        secondary_private_keys@[j]@,
                        message@,
                    ),
            decreases secondary_private_keys.len() - i,
        {
            let key = secondary_private_keys[i];
            let signature = key.sign(message.as_slice());
            secondary_authenticators.push(AccountAuthenticator::ed25519(key.public_key(), signature));
            i += 1;
        }
        proof {
            let msg = message@;
            let keys = secondary_private_keys@;
            let signers = secondary_authenticators@;
            if all_verify(signers, msg) {
                assert forall|i: int| 0 <= i < keys.len() implies own_signature_valid(
                    (#[trigger] keys[i])@,
                    msg,
                ) by {
                    assert(signers[i].spec_verifies(msg));
                    assert(is_signed_by(signers[i], keys[i]@, msg));
                }
            }
            if forall|i: int| 0 <= i < keys.len() ==> own_signature_valid((#[trigger] keys[i])@, msg) {
                assert forall|i: int| 0 <= i < signers.len() implies (#[trigger] signers[i]).spec_verifies(
                    msg,
                ) by {
                    assert(own_signature_valid(keys[i]@, msg));
                    assert(is_signed_by(signers[i], keys[i]@, msg));
                }
            }
        }
        SignedTransaction::new_multi_agent(
            self,
            sender_authenticator,
            secondary_signers,
            secondary_authenticators,
        ).check_signature()
    }
}

/// Whether the signature that `private_key` gives of `message` is valid under
/// the public key that belongs to it.
pub open spec fn own_signature_valid(private_key: Seq<u8>, message: Seq<u8>) -> bool {
    ed25519_valid(ed25519_public(private_key), message, ed25519_signature(private_key, message))
}

/// Whether an authenticator is what signing `message` with `private_key`
/// gives: the public key that belongs to the private key, and the signature.
pub open spec fn is_signed_by(
    authenticator: AccountAuthenticator,
    private_key: Seq<u8>,
    message: Seq<u8>,
) -> bool {
    match authenticator {
        AccountAuthenticator::Ed25519 { public_key, signature } => public_key@ == ed25519_public(
            private_key,
        ) && signature@ == ed25519_signature(private_key, message),
        _ => false,
    }
}

/// Whether an authenticator is what the sender and the further signers give
/// by signing `message` each with their own private key: it holds the
/// further signers' addresses as given, and one authenticator for each key.
pub open spec fn is_multi_agent_signed_by(
    authenticator: TransactionAuthenticator,
    sender_private_key: Seq<u8>,
    addresses: Vec<AccountAddress>,
    private_keys: Seq<&Ed25519PrivateKey>,
    message: Seq<u8>,
) -> bool {
    match authenticator {
        TransactionAuthenticator::MultiAgent {
            sender,
            secondary_signer_addresses,
            secondary_signers,
        } => {
            &&& secondary_signer_addresses == addresses
            &&& is_signed_by(sender, sender_private_key, message)
            &&& secondary_signers@.len() == private_keys.len()
            &&& forall|i: int|
                0 <= i < private_keys.len() ==> is_signed_by(
                    #[trigger] secondary_signers@[i],
                    private_keys[i]@,
                    message,
                )
        },
        _ => false,
    }
}

/// Why a transaction was not signed or its signature not accepted.
#[derive(Clone, Copy, Debug, PartialEq, Eq, Structural)]
pub enum SignatureError {
    /// A signature is not valid for the message and the key it comes with,
    /// or a multi-agent transaction does not hold one authenticator for each
    /// further signer's address.
    InvalidSignature,
    /// The number of private keys is not the number of further signers.
    SignerCountMismatch,
}

/// A raw transaction together with what else its signers sign.
#[derive(Debug, PartialEq, Eq)]
pub enum RawTransactionWithData {
    MultiAgent { raw_txn: RawTransaction, secondary_signer_addresses: Vec<AccountAddress> },
}

impl View for RawTransactionWithData {
    type V = Seq<u8>;

    /// The canonical encoding: the number of the kind, the transaction and
    /// the addresses.
    open spec fn view(&self) -> Seq<u8> {
        match self {
            RawTransactionWithData::MultiAgent { raw_txn, secondary_signer_addresses } => seq![0u8]
                + raw_txn@ + sequence(address_parts(secondary_signer_addresses@)),
        }
    }
}

impl RawTransactionWithData {
    pub fn new_multi_agent(
        raw_txn: RawTransaction,
        secondary_signer_addresses: Vec<AccountAddress>,
    ) -> (r: Self)
        ensures
            r == (RawTransactionWithData::MultiAgent { raw_txn, secondary_signer_addresses }),
    {
        RawTransactionWithData::MultiAgent { raw_txn, secondary_signer_addresses }
    }

    /// The message that is signed for this value.
    pub fn signing_message(&self) -> (r: Vec<u8>)
        ensures
            r@ == HashDomain::RawTransactionWithData.signing_message(self@),
    {
        match self {
            RawTransactionWithData::MultiAgent { raw_txn, secondary_signer_addresses } => {
                raw_txn.multi_agent_signing_message(secondary_signer_addresses)
            },
        }
    }
}

/// A transaction that has been signed. Nothing says that its signature is
/// valid: for that, see `SignatureCheckedTransaction`.
#[derive(Debug, PartialEq, Eq)]
pub struct SignedTransaction {
    /// The raw transaction.
    pub raw_txn: RawTransaction,
    /// The keys and signatures that authorise it.
    pub authenticator: TransactionAuthenticator,
}

impl View for SignedTransaction {
    type V = Seq<u8>;

    /// The canonical encoding: the raw transaction, then the authenticator.
    open spec fn view(&self) -> Seq<u8> {
        self.raw_txn@ + self.authenticator@
    }
}

impl Clone for SignedTransaction {
    fn clone(&self) -> (r: Self)
        ensures
            r@ == self@,
            r.raw_txn@ == self.raw_txn@,
            r.raw_txn.sender == self.raw_txn.sender,
            r.raw_txn.sequence_number == self.raw_txn.sequence_number,
            r.raw_txn.payload@ == self.raw_txn.payload@,
            r.raw_txn.max_gas_amount == self.raw_txn.max_gas_amount,
            r.raw_txn.gas_unit_price == self.raw_txn.gas_unit_price,
            r.raw_txn.gas_currency_code@ == self.raw_txn.gas_currency_code@,
            r.raw_txn.expiration_timestamp_secs == self.raw_txn.expiration_timestamp_secs,
            r.raw_txn.chain_id == self.raw_txn.chain_id,
            r.spec_signature_valid() == self.spec_signature_valid(),
            r.spec_contains_duplicate_signers() == self.spec_contains_duplicate_signers(),
            r.spec_committed_hash() == self.spec_committed_hash(),
    {
        SignedTransaction { raw_txn: self.raw_txn.clone(), authenticator: self.authenticator.clone() }
    }
}

/// Whether an address stands at two places of a list.
pub open spec fn has_duplicates(addresses: Seq<AccountAddress>) -> bool {
    exists|i: int, j: int| 0 <= i < j < addresses.len() && addresses[i] == addresses[j]
}

impl SignedTransaction {
    /// A transaction with a single signature of its sender.
    pub fn new(raw_txn: RawTransaction, public_key: Ed25519PublicKey, signature: Ed25519Signature) -> (r:
        SignedTransaction)
        ensures
            r.raw_txn == raw_txn,
            r.authenticator == (TransactionAuthenticator::Ed25519 { public_key, signature }),
    {
        SignedTransaction { raw_txn, authenticator: TransactionAuthenticator::ed25519(public_key, signature) }
    }

    /// A transaction with a threshold signature of its sender.
    pub fn new_multisig(
        raw_txn: RawTransaction,
        public_key: MultiEd25519PublicKey,
        signature: MultiEd25519Signature,
    ) -> (r: SignedTransaction)
        ensures
            r.raw_txn == raw_txn,
            r.authenticator == (TransactionAuthenticator::MultiEd25519 { public_key, signature }),
    {
        SignedTransaction {
            raw_txn,
            authenticator: TransactionAuthenticator::multi_ed25519(public_key, signature),
        }
    }

    /// A transaction that its sender and further signers authorise.
    pub fn new_multi_agent(
        raw_txn: RawTransaction,
        sender: AccountAuthenticator,
        secondary_signer_addresses: Vec<AccountAddress>,
        secondary_signers: Vec<AccountAuthenticator>,
    ) -> (r: Self)
        ensures
            r.raw_txn == raw_txn,
            r.authenticator == (TransactionAuthenticator::MultiAgent {
                sender,
                secondary_signer_addresses,
                secondary_signers,
            }),
    {
        SignedTransaction {
            raw_txn,
            authenticator: TransactionAuthenticator::multi_agent(
                sender,
                secondary_signer_addresses,
                secondary_signers,
            ),
        }
    }

    pub fn authenticator(&self) -> (r: TransactionAuthenticator)
        ensures
            r@ == self.authenticator@,
    {
        self.authenticator.clone()
    }

    pub fn sender(&self) -> (r: AccountAddress)
        ensures
            r == self.raw_txn.sender,
    {
        self.raw_txn.sender
    }

    pub fn into_raw_transaction(self) -> (r: RawTransaction)
        ensures
            r == self.raw_txn,
    {
        self.raw_txn
    }

    pub fn sequence_number(&self) -> (r: u64)
        ensures
            r == self.raw_txn.sequence_number,
    {
        self.raw_txn.sequence_number
    }

    pub fn chain_id(&self) -> (r: ChainId)
        ensures
            r == self.raw_txn.chain_id,
    {
        self.raw_txn.chain_id
    }

    pub fn payload(&self) -> (r: &TransactionPayload)
        ensures
            *r == self.raw_txn.payload,
    {
        &self.raw_txn.payload
    }

    pub fn max_gas_amount(&self) -> (r: u64)
        ensures
            r == self.raw_txn.max_gas_amount,
    {
        self.raw_txn.max_gas_amount
    }

    pub fn gas_unit_price(&self) -> (r: u64)
        ensures
            r == self.raw_txn.gas_unit_price,
    {
        self.raw_txn.gas_unit_price
    }

    pub fn gas_currency_code(&self) -> (r: &str)
        ensures
            r@ == self.raw_txn.gas_currency_code@,
    {
        self.raw_txn.gas_currency_code.as_str()
    }

    pub fn expiration_timestamp_secs(&self) -> (r: u64)
        ensures
            r == self.raw_txn.expiration_timestamp_secs,
    {
        self.raw_txn.expiration_timestamp_secs
    }

    /// The number of bytes of the raw transaction's canonical encoding.
    pub fn raw_txn_bytes_len(&self) -> (r: usize)
        ensures
            r == self.raw_txn@.len(),
    {
        self.raw_txn.to_bytes().len()
    }

    /// Appends the canonical encoding.
    pub fn encode(&self, out: &mut Vec<u8>)
        ensures
            final(out)@ == old(out)@ + self@,
    {
        self.raw_txn.encode(out);
        self.authenticator.encode(out);
        assert(out@ =~= old(out)@ + self@);
    }

    /// The canonical encoding.
    pub fn to_bytes(&self) -> (r: Vec<u8>)
        ensures
            r@ == self@,
    {
        let mut r: Vec<u8> = Vec::new();
        self.encode(&mut r);
        assert(r@ =~= self@);
        r
    }

    /// Whether two transactions are the same: whether their canonical
    /// encodings are.
    pub fn same(&self, other: &SignedTransaction) -> (r: bool)
        ensures
            r == (self@ == other@),
    {
        let a = self.to_bytes();
        let b = other.to_bytes();
        bytes_equal(a.as_slice(), b.as_slice())
    }

    /// Whether the authenticator authorises the raw transaction. A single or
    /// threshold signature signs the raw transaction; the sender and the
    /// further signers of a multi-agent transaction sign the raw transaction
    /// together with the further signers' addresses.
    pub open spec fn spec_signature_valid(&self) -> bool {
        self.authenticator.spec_verifies(
            self.raw_txn.spec_signing_message(),
            multi_agent_message(self.raw_txn@, self.authenticator.spec_secondary_signer_addresses()),
        )
    }

    /// Checks the signature. A transaction whose signature is valid comes
    /// back in the shape that only this check gives; any other is consumed.
    pub fn check_signature(self) -> (r: Result<SignatureCheckedTransaction, SignatureError>)
        ensures
            r is Ok <==> self.spec_signature_valid(),
            r is Ok ==> r->Ok_0.inner() == self,
            r is Err ==> r->Err_0 == SignatureError::InvalidSignature,
    {
        let single = self.raw_txn.signing_message();
        let addresses = self.authenticator.secondary_signer_addresses();
        let multi = self.raw_txn.multi_agent_signing_message(&addresses);
        if self.authenticator.verifies(single.as_slice(), multi.as_slice()) {
            Ok(SignatureCheckedTransaction { txn: self })
        } else {
            Err(SignatureError::InvalidSignature)
        }
    }

    /// Whether the sender or a further signer signs twice: the addresses of
    /// the further signers followed by the sender's hold a duplicate.
    pub open spec fn spec_contains_duplicate_signers(&self) -> bool {
        has_duplicates(
            self.authenticator.spec_secondary_signer_addresses().push(self.raw_txn.sender),
        )
    }

    pub fn contains_duplicate_signers(&self) -> (r: bool)
        ensures
            r == self.spec_contains_duplicate_signers(),
    {
        let mut all = self.authenticator.secondary_signer_addresses();
        all.push(self.sender());
        let mut j: usize = 0;
        while j < all.len()
            invariant
                j <= all.len(),
                all@ == self.authenticator.spec_secondary_signer_addresses().push(
                    self.raw_txn.sender,
                ),
                forall|a: int, b: int| 0 <= a < b < j ==> all@[a] != all@[b],
            decreases all.len() - j,
        {
            let mut i: usize = 0;
            while i < j
                invariant
                    i <= j < all.len(),
                    all@ == self.authenticator.spec_secondary_signer_addresses().push(
                        self.raw_txn.sender,
                    ),
                    forall|a: int| 0 <= a < i ==> all@[a] != all@[j as int],
                decreases j - i,
            {
                if all[i] == all[j] {
                    return true;
                }
                i += 1;
            }
            j += 1;
        }
        false
    }

    pub fn is_multi_agent(&self) -> (r: bool)
        ensures
            r == (self.authenticator is MultiAgent),
    {
        match &self.authenticator {
            TransactionAuthenticator::MultiAgent { .. } => true,
            _ => false,
        }
    }

    /// The hash of the transaction once it is committed: that of the ledger
    /// transaction which holds it.
    pub open spec fn spec_committed_hash(&self) -> Seq<u8> {
        HashDomain::Transaction.hash_of(seq![0u8] + self@)
    }

    pub fn committed_hash(self) -> (r: HashValue)
        ensures
            r@ == self.spec_committed_hash(),
    {
        Transaction::UserTransaction(self).hash()
    }
}

/// A transaction whose signature has been checked and found valid. Only
/// `SignedTransaction::check_signature` makes one.
#[derive(Debug, PartialEq, Eq)]
pub struct SignatureCheckedTransaction {
    txn: SignedTransaction,
}

impl SignatureCheckedTransaction {
    #[verifier::type_invariant]
    spec fn valid(self) -> bool {
        self.txn.spec_signature_valid()
    }

    /// The signed transaction within.
    pub closed spec fn inner(&self) -> SignedTransaction {
        self.txn
    }

    /// Returns the signed transaction within.
    pub fn into_inner(self) -> (r: SignedTransaction)
        ensures
            r == self.inner(),
            r.spec_signature_valid(),
    {
        proof {
            use_type_invariant(&self);
        }
        self.txn
    }

    /// Returns the raw transaction within.
    pub fn into_raw_transaction(self) -> (r: RawTransaction)
        ensures
            r == self.inner().raw_txn,
    {
        self.txn.into_raw_transaction()
    }

    /// Looks at the signed transaction within.
    pub fn as_signed(&self) -> (r: &SignedTransaction)
        ensures
            *r == self.inner(),
            r.spec_signature_valid(),
    {
        proof {
            use_type_invariant(self);
        }
        &self.txn
    }
}

/// What a block tells the ledger at its beginning.
#[derive(Debug, PartialEq, Eq)]
pub struct BlockMetadata {
    pub id: HashValue,
    pub round: u64,
    pub timestamp_usecs: u64,
    pub previous_block_votes: Vec<AccountAddress>,
    pub proposer: AccountAddress,
}

impl View for BlockMetadata {
    type V = Seq<u8>;

    /// The canonical encoding: the fields in the order of their declaration.
    open spec fn view(&self) -> Seq<u8> {
        byte_string(self.id@) + le_u64(self.round) + le_u64(self.timestamp_usecs) + sequence(
            address_parts(self.previous_block_votes@),
        ) + be_u128(self.proposer.value)
    }
}

impl Clone for BlockMetadata {
    fn clone(&self) -> (r: Self)
        ensures
            r@ == self@,
    {
        BlockMetadata {
            id: self.id,
            round: self.round,
            timestamp_usecs: self.timestamp_usecs,
            previous_block_votes: clone_addresses(&self.previous_block_votes),
            proposer: self.proposer,
        }
    }
}

impl BlockMetadata {
    pub fn new(
        id: HashValue,
        round: u64,
        timestamp_usecs: u64,
        previous_block_votes: Vec<AccountAddress>,
        proposer: AccountAddress,
    ) -> (r: Self)
        ensures
            r == (BlockMetadata { id, round, timestamp_usecs, previous_block_votes, proposer }),
    {
        BlockMetadata { id, round, timestamp_usecs, previous_block_votes, proposer }
    }

    /// Appends the canonical encoding.
    pub fn encode(&self, out: &mut Vec<u8>)
        ensures
            final(out)@ == old(out)@ + self@,
    {
        write_byte_string(out, &self.id.hash);
        write_u64(out, self.round);
        write_u64(out, self.timestamp_usecs);
        encode_addresses(&self.previous_block_votes, out);
        let proposer = self.proposer.to_bytes();
        append(out, &proposer);
        assert(out@ =~= old(out)@ + self@);
    }
}

/// The unit of ledger inclusion.
#[derive(Debug, PartialEq, Eq)]
pub enum Transaction {
    /// A transaction that a user submitted.
    UserTransaction(SignedTransaction),
    /// The transaction that writes the first state.
    GenesisTransaction(WriteSetPayload),
    /// The transaction at the beginning of a block.
    BlockMetadata(BlockMetadata),
}

impl View for Transaction {
    type V = Seq<u8>;

    /// The canonical encoding: the number of the kind, then what it holds.
    open spec fn view(&self) -> Seq<u8> {
        match self {
            Transaction::UserTransaction(t) => seq![0u8] + t@,
            Transaction::GenesisTransaction(t) => seq![1u8] + t@,
            Transaction::BlockMetadata(t) => seq![2u8] + t@,
        }
    }
}

impl Clone for Transaction {
    fn clone(&self) -> (r: Self)
        ensures
            r@ == self@,
            r is UserTransaction <==> self is UserTransaction,
            self is UserTransaction ==> {
                &&& r->UserTransaction_0@ == self->UserTransaction_0@
                &&& r->UserTransaction_0.raw_txn.sender == self->UserTransaction_0.raw_txn.sender
                &&& r->UserTransaction_0.raw_txn.sequence_number
                    == self->UserTransaction_0.raw_txn.sequence_number
            },
    {
        match self {
            Transaction::UserTransaction(t) => Transaction::UserTransaction(t.clone()),
            Transaction::GenesisTransaction(t) => Transaction::GenesisTransaction(t.clone()),
            Transaction::BlockMetadata(t) => Transaction::BlockMetadata(t.clone()),
        }
    }
}

impl TryFrom<Transaction> for SignedTransaction {
    type Error = NotUserTransaction;

    fn try_from(txn: Transaction) -> (r: Result<SignedTransaction, NotUserTransaction>) {
        match txn {
            Transaction::UserTransaction(txn) => Ok(txn),
            _ => Err(NotUserTransaction),
        }
    }
}

impl vstd::std_specs::convert::TryFromSpecImpl<Transaction> for SignedTransaction {
    open spec fn obeys_try_from_spec() -> bool {
        true
    }

    open spec fn try_from_spec(txn: Transaction) -> Result<SignedTransaction, NotUserTransaction> {
        match txn {
            Transaction::UserTransaction(txn) => Ok(txn),
            _ => Err(NotUserTransaction),
        }
    }
}

/// The error of taking a ledger transaction that is no user transaction for
/// a signed transaction.
#[derive(Clone, Copy, Debug, PartialEq, Eq, Structural)]
pub struct NotUserTransaction;

impl Transaction {
    /// The signed transaction of a user transaction, and nothing of another.
    pub fn as_signed_user_txn(&self) -> (r: Option<&SignedTransaction>)
        ensures
            r is Some <==> self is UserTransaction,
            r is Some ==> *r->Some_0 == self->UserTransaction_0,
    {
        match self {
            Transaction::UserTransaction(txn) => Some(txn),
            _ => None,
        }
    }

    /// Appends the canonical encoding.
    pub fn encode(&self, out: &mut Vec<u8>)
        ensures
            final(out)@ == old(out)@ + self@,
    {
        match self {
            Transaction::UserTransaction(t) => {
                write_u8(out, 0);
                t.encode(out);
            },
            Transaction::GenesisTransaction(t) => {
                write_u8(out, 1);
                t.encode(out);
            },
            Transaction::BlockMetadata(t) => {
                write_u8(out, 2);
                t.encode(out);
            },
        }
        assert(out@ =~= old(out)@ + self@);
    }

    /// The hash of the transaction: the hash of its canonical encoding among
    /// transactions.
    pub open spec fn spec_hash(&self) -> Seq<u8> {
        HashDomain::Transaction.hash_of(self@)
    }

    pub fn hash(&self) -> (r: HashValue)
        ensures
            r@ == self.spec_hash(),
    {
        let mut bytes: Vec<u8> = Vec::new();
        self.encode(&mut bytes);
        assert(bytes@ =~= self@);
        HashDomain::Transaction.hash(bytes.as_slice())
    }
}

} // verus!
