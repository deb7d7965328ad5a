use diem_core::account_address::AccountAddress;
use diem_core::crypto::{
    Ed25519PrivateKey, Ed25519PublicKey, Ed25519Signature, IndexedSignature,
    MultiEd25519PublicKey, MultiEd25519Signature,
};
use diem_core::hash::{HashDomain, HashValue};
use diem_core::transaction::authenticator::{AccountAuthenticator, TransactionAuthenticator};
use diem_core::transaction::status::{
    GovernanceRole, KeptVMStatus, StatusCode, TransactionStatus, VMValidatorResult,
};
use diem_core::transaction::{
    ChainId, ChangeSet, Module, RawTransaction, Script, ScriptFunction, SignatureError,
    SignedTransaction, Transaction, TransactionPayload, WriteSet, WriteSetPayload,
    PRE_GENESIS_VERSION,
};

fn key(seed: u8) -> Ed25519PrivateKey {
    Ed25519PrivateKey::new([seed; 32])
}

fn raw(sender: u128, seq: u64) -> RawTransaction {
    RawTransaction::new_script(
        AccountAddress::new(sender),
        seq,
        Script::new(vec![1, 2, 3], vec![], vec![4]),
        1000,
        2,
        "XUS".to_string(),
        99,
        ChainId::new(4),
    )
}

#[test]
fn signed_transaction_passes_the_check() {
    let k = key(1);
    let checked = raw(1, 0).sign(&k, k.public_key()).unwrap();
    let signed = checked.into_inner();
    assert_eq!(signed.sender(), AccountAddress::new(1));
    assert_eq!(signed.sequence_number(), 0);
    assert_eq!(signed.max_gas_amount(), 1000);
    assert_eq!(signed.gas_unit_price(), 2);
    assert_eq!(signed.gas_currency_code(), "XUS");
    assert_eq!(signed.expiration_timestamp_secs(), 99);
    assert_eq!(signed.chain_id(), ChainId::new(4));
    assert!(!signed.is_multi_agent());
    assert!(signed.clone().check_signature().is_ok());
    assert_eq!(signed.check_signature().unwrap().into_raw_transaction(), raw(1, 0));
}

#[test]
fn signature_under_another_key_or_message_is_refused() {
    let k = key(1);
    assert_eq!(
        raw(1, 0).sign(&k, key(2).public_key()),
        Err(SignatureError::InvalidSignature)
    );
    let signed = raw(1, 0).sign(&k, k.public_key()).unwrap().into_inner();
    let signature = match signed.authenticator() {
        TransactionAuthenticator::Ed25519 { signature, .. } => signature,
        _ => unreachable!(),
    };
    let forged = SignedTransaction::new(raw(1, 1), k.public_key(), signature);
    assert_eq!(
        forged.check_signature(),
        Err(SignatureError::InvalidSignature)
    );
    let garbage = SignedTransaction::new(
        raw(1, 0),
        Ed25519PublicKey::new([0xff; 32]),
        Ed25519Signature::new([0; 64]),
    );
    assert!(garbage.check_signature().is_err());
}

#[test]
fn multi_agent_signing_and_checking() {
    let sender = key(1);
    let second = key(2);
    let third = key(3);
    let secondary = vec![AccountAddress::new(20), AccountAddress::new(30)];
    let checked = raw(10, 0)
        .sign_multi_agent(&sender, secondary.clone(), vec![&second, &third])
        .unwrap();
    let signed = checked.into_inner();
    assert!(signed.is_multi_agent());
    assert!(!signed.contains_duplicate_signers());
    assert!(signed.clone().check_signature().is_ok());

    // the number of keys must be the number of signers
    assert_eq!(
        raw(10, 0).sign_multi_agent(&sender, secondary.clone(), vec![&second]),
        Err(SignatureError::SignerCountMismatch)
    );

    // the signers sign the addresses too: other addresses, no valid signature
    let (sender_auth, signers) = match signed.authenticator() {
        TransactionAuthenticator::MultiAgent {
            sender,
            secondary_signers,
            ..
        } => (sender, secondary_signers),
        _ => unreachable!(),
    };
    let moved = SignedTransaction::new_multi_agent(
        raw(10, 0),
        sender_auth.clone(),
        vec![AccountAddress::new(30), AccountAddress::new(20)],
        signers.clone(),
    );
    assert!(moved.check_signature().is_err());

    // one authenticator for each address
    let short = SignedTransaction::new_multi_agent(
        raw(10, 0),
        sender_auth,
        secondary,
        vec![signers[0].clone()],
    );
    assert!(short.check_signature().is_err());
}

#[test]
fn single_key_as_a_bundle() {
    let k = key(1);
    let signed = raw(1, 0)
        .multi_sign_for_testing(&k, k.public_key())
        .unwrap()
        .into_inner();
    assert!(matches!(
        signed.authenticator(),
        TransactionAuthenticator::MultiEd25519 { .. }
    ));
    assert!(signed.check_signature().is_ok());
    assert_eq!(
        raw(1, 0).multi_sign_for_testing(&k, key(2).public_key()),
        Err(SignatureError::InvalidSignature)
    );
}

#[test]
fn duplicate_signers() {
    let auth = || {
        AccountAuthenticator::ed25519(
            Ed25519PublicKey::new([1; 32]),
            Ed25519Signature::new([2; 64]),
        )
    };
    let with = |sender: u128, secondary: Vec<u128>| {
        let n = secondary.len();
        SignedTransaction::new_multi_agent(
            raw(sender, 0),
            auth(),
            secondary.into_iter().map(AccountAddress::new).collect(),
            (0..n).map(|_| auth()).collect(),
        )
    };
    assert!(!with(1, vec![2, 3]).contains_duplicate_signers());
    assert!(with(1, vec![2, 1]).contains_duplicate_signers());
    assert!(with(1, vec![2, 2]).contains_duplicate_signers());
    assert!(!with(1, vec![]).contains_duplicate_signers());
    let single = SignedTransaction::new(
        raw(1, 0),
        Ed25519PublicKey::new([1; 32]),
        Ed25519Signature::new([2; 64]),
    );
    assert!(!single.contains_duplicate_signers());
}

#[test]
fn threshold_signatures() {
    let keys = [key(1), key(2), key(3)];
    let bundle = MultiEd25519PublicKey::new(keys.iter().map(|k| k.public_key()).collect(), 2);
    let message = raw(1, 0).signing_message();
    let sig = |i: usize| IndexedSignature {
        index: i as u8,
        signature: keys[i].sign(&message),
    };
    let signed = |sigs: Vec<IndexedSignature>| {
        SignedTransaction::new_multisig(raw(1, 0), bundle.clone(), MultiEd25519Signature::new(sigs))
    };
    assert!(signed(vec![sig(0), sig(2)]).check_signature().is_ok());
    assert!(signed(vec![sig(0), sig(1), sig(2)]).check_signature().is_ok());
    // too few
    assert!(signed(vec![sig(1)]).check_signature().is_err());
    // the same key twice, or out of order
    assert!(signed(vec![sig(1), sig(1)]).check_signature().is_err());
    assert!(signed(vec![sig(2), sig(0)]).check_signature().is_err());
    // a key that the bundle does not hold
    let stray = IndexedSignature {
        index: 3,
        signature: keys[0].sign(&message),
    };
    assert!(signed(vec![sig(0), stray]).check_signature().is_err());
    // a signature under the wrong key
    let wrong = IndexedSignature {
        index: 1,
        signature: keys[0].sign(&message),
    };
    assert!(signed(vec![sig(0), wrong]).check_signature().is_err());
    // a bundle that asks for no signature accepts nothing
    let lax = MultiEd25519PublicKey::new(keys.iter().map(|k| k.public_key()).collect(), 0);
    let t = SignedTransaction::new_multisig(
        raw(1, 0),
        lax,
        MultiEd25519Signature::new(vec![sig(0)]),
    );
    assert!(t.check_signature().is_err());
}

#[test]
fn canonical_encoding_of_a_raw_transaction() {
    let bytes = raw(1, 7).to_bytes();
    let mut expected = vec![0u8; 15];
    expected.push(1); // sender
    expected.extend(7u64.to_le_bytes()); // sequence number
    expected.push(1); // payload: script
    expected.extend([3, 1, 2, 3]); // code
    expected.push(0); // type arguments
    expected.extend([1, 4]); // arguments
    expected.extend(1000u64.to_le_bytes());
    expected.extend(2u64.to_le_bytes());
    expected.extend([3, b'X', b'U', b'S']);
    expected.extend(99u64.to_le_bytes());
    expected.push(4); // chain id
    assert_eq!(bytes, expected);
    let signed = SignedTransaction::new(
        raw(1, 7),
        Ed25519PublicKey::new([7; 32]),
        Ed25519Signature::new([9; 64]),
    );
    assert_eq!(signed.raw_txn_bytes_len(), expected.len());
    let mut whole = expected.clone();
    whole.push(0);
    whole.push(32);
    whole.extend([7; 32]);
    whole.push(64);
    whole.extend([9; 64]);
    assert_eq!(signed.to_bytes(), whole);
    let mut ledger = vec![0u8];
    ledger.extend(whole);
    assert_eq!(
        signed.clone().committed_hash(),
        HashDomain::Transaction.hash(&ledger)
    );
    assert_eq!(
        Transaction::UserTransaction(signed.clone()).hash(),
        signed.committed_hash()
    );
}

#[test]
fn long_byte_strings_have_their_length_in_base_128() {
    let t = RawTransaction::new_module(
        AccountAddress::new(1),
        0,
        Module::new(vec![0xaa; 300]),
        0,
        0,
        "".to_string(),
        0,
        ChainId::new(1),
    );
    let bytes = t.to_bytes();
    assert_eq!(&bytes[24..27], &[2, 0xac, 0x02]);
    assert_eq!(bytes.len(), 16 + 8 + 1 + 2 + 300 + 8 + 8 + 1 + 8 + 1);
}

#[test]
fn hashes_are_separated_by_domain() {
    let data = [1u8, 2, 3];
    assert_ne!(
        HashDomain::Transaction.hash(&data),
        HashDomain::RawTransaction.hash(&data)
    );
    assert_ne!(
        HashDomain::Transaction.hash(&data),
        HashValue::sha3_256_of(&data)
    );
    let mut seed_input = b"DIEM::Transaction".to_vec();
    let seed = HashValue::sha3_256_of(&seed_input);
    seed_input = seed.to_vec();
    seed_input.extend(data);
    assert_eq!(
        HashDomain::Transaction.hash(&data),
        HashValue::sha3_256_of(&seed_input)
    );
    // the digest of the empty string, as it is published
    assert_eq!(
        HashValue::sha3_256_of(&[]).to_vec()[..4],
        [0xa7, 0xff, 0xc6, 0xf8]
    );
    assert_eq!(
        &HashValue::sparse_merkle_placeholder().to_vec()[..6],
        b"SPARSE"
    );
    assert_eq!(
        &HashValue::accumulator_placeholder().to_vec()[..11],
        b"ACCUMULATOR"
    );
    assert_eq!(HashValue::zero().to_vec(), vec![0u8; 32]);
    assert_eq!(HashValue::from_slice(&[1; 31]), None);
    assert_eq!(HashValue::from_slice(&[1; 32]), Some(HashValue::new([1; 32])));
}

#[test]
fn write_set_transactions() {
    let t = RawTransaction::new_write_set(
        AccountAddress::new(1),
        3,
        WriteSet::new(vec![1]),
        ChainId::new(4),
    );
    assert_eq!(t.sender(), AccountAddress::new(1));
    assert_eq!(t.max_gas_amount, 0);
    assert_eq!(t.gas_unit_price, 0);
    assert_eq!(t.gas_currency_code, "XUS");
    assert_eq!(t.expiration_timestamp_secs, u64::MAX);
    let payload = t.into_payload();
    assert!(payload.should_trigger_reconfiguration_by_default());
    assert_eq!(
        payload,
        TransactionPayload::WriteSet(WriteSetPayload::Direct(ChangeSet::new(
            WriteSet::new(vec![1]),
            vec![]
        )))
    );

    let scripted = RawTransaction::new_writeset_script(
        AccountAddress::new(1),
        3,
        Script::new(vec![1], vec![], vec![]),
        AccountAddress::new(9),
        ChainId::new(4),
    );
    assert_eq!(scripted.expiration_timestamp_secs, u64::MAX);
    assert!(!scripted
        .into_payload()
        .should_trigger_reconfiguration_by_default());
    assert!(!raw(1, 0)
        .into_payload()
        .should_trigger_reconfiguration_by_default());

    let function = ScriptFunction::new(
        AccountAddress::new(1),
        b"Account".to_vec(),
        b"pay".to_vec(),
        vec![],
        vec![],
    );
    let t = RawTransaction::new_script_function(
        AccountAddress::new(1),
        0,
        function.clone(),
        1,
        1,
        "XUS".to_string(),
        1,
        ChainId::new(1),
    );
    assert_eq!(t.into_payload().into_script_function(), function);
    assert_eq!(PRE_GENESIS_VERSION, u64::MAX);
}

#[test]
fn ledger_transactions() {
    let signed = SignedTransaction::new(
        raw(1, 7),
        Ed25519PublicKey::new([7; 32]),
        Ed25519Signature::new([9; 64]),
    );
    let user = Transaction::UserTransaction(signed.clone());
    assert_eq!(user.as_signed_user_txn(), Some(&signed));
    let genesis = Transaction::GenesisTransaction(WriteSetPayload::Direct(ChangeSet::new(
        WriteSet::new(vec![]),
        vec![],
    )));
    assert_eq!(genesis.as_signed_user_txn(), None);
    assert_ne!(user.hash(), genesis.hash());
}

#[test]
fn statuses_and_roles() {
    assert_eq!(
        TransactionStatus::Keep(KeptVMStatus::Executed).status(),
        Ok(KeptVMStatus::Executed)
    );
    assert_eq!(
        TransactionStatus::Discard(StatusCode(7)).status(),
        Err(StatusCode(7))
    );
    assert_eq!(
        TransactionStatus::Retry.status(),
        Err(StatusCode::unknown_validation_status())
    );
    assert!(!TransactionStatus::Keep(KeptVMStatus::OutOfGas).is_discarded());
    assert!(TransactionStatus::Discard(StatusCode(7)).is_discarded());
    assert!(TransactionStatus::Retry.is_discarded());
    assert_eq!(
        TransactionStatus::from(KeptVMStatus::Executed),
        TransactionStatus::Keep(KeptVMStatus::Executed)
    );

    let roles = [
        (0, GovernanceRole::DiemRoot, 3),
        (1, GovernanceRole::TreasuryCompliance, 2),
        (2, GovernanceRole::DesignatedDealer, 1),
        (3, GovernanceRole::Validator, 1),
        (4, GovernanceRole::ValidatorOperator, 1),
        (5, GovernanceRole::NonGovernanceRole, 0),
        (u64::MAX, GovernanceRole::NonGovernanceRole, 0),
    ];
    for (id, role, priority) in roles {
        assert_eq!(GovernanceRole::from_role_id(id), role);
        assert_eq!(role.priority(), priority);
    }

    let ok = VMValidatorResult::new(None, 5, GovernanceRole::Validator);
    assert_eq!(ok.status(), None);
    assert_eq!(ok.score(), 5);
    assert_eq!(ok.governance_role(), GovernanceRole::Validator);
    let bad = VMValidatorResult::error(StatusCode(3));
    assert_eq!(bad.status(), Some(StatusCode(3)));
    assert_eq!(bad.score(), 0);
    assert_eq!(bad.governance_role(), GovernanceRole::NonGovernanceRole);
}

fn signed_samples() -> Vec<SignedTransaction> {
    let k = key(1);
    let mut samples = vec![];
    samples.push(raw(1, 0).sign(&k, k.public_key()).unwrap().into_inner());
    samples.push(
        raw(10, 3)
            .sign_multi_agent(
                &k,
                vec![AccountAddress::new(20), AccountAddress::new(u128::MAX)],
                vec![&key(2), &key(3)],
            )
            .unwrap()
            .into_inner(),
    );
    let keys = [key(1), key(2), key(3)];
    let bundle = MultiEd25519PublicKey::new(keys.iter().map(|k| k.public_key()).collect(), 2);
    let module = RawTransaction::new_module(
        AccountAddress::new(5),
        u64::MAX,
        Module::new(vec![0xaa; 300]),
        1,
        2,
        "Coin\u{e9}".to_string(),
        3,
        ChainId::new(255),
    );
    let message = module.signing_message();
    samples.push(SignedTransaction::new_multisig(
        module,
        bundle.clone(),
        MultiEd25519Signature::new(vec![
            IndexedSignature {
                index: 0,
                signature: keys[0].sign(&message),
            },
            IndexedSignature {
                index: 2,
                signature: keys[2].sign(&message),
            },
        ]),
    ));
    let function = RawTransaction::new_script_function(
        AccountAddress::new(1),
        0,
        ScriptFunction::new(
            AccountAddress::new(1),
            b"Account".to_vec(),
            b"pay".to_vec(),
            vec![1],
            vec![2, 3],
        ),
        1,
        1,
        "XUS".to_string(),
        1,
        ChainId::new(1),
    );
    samples.push(SignedTransaction::new(
        function,
        Ed25519PublicKey::new([1; 32]),
        Ed25519Signature::new([2; 64]),
    ));
    let write_set = RawTransaction::new_change_set(
        AccountAddress::new(1),
        0,
        ChangeSet::new(
            WriteSet::new(vec![1, 2]),
            vec![
                diem_core::transaction::ContractEvent::new(vec![1], 2, vec![3], vec![4]),
                diem_core::transaction::ContractEvent::new(vec![], 0, vec![], vec![]),
            ],
        ),
        ChainId::new(1),
    );
    samples.push(SignedTransaction::new(
        write_set,
        Ed25519PublicKey::new([1; 32]),
        Ed25519Signature::new([2; 64]),
    ));
    let scripted = RawTransaction::new_writeset_script(
        AccountAddress::new(1),
        3,
        Script::new(vec![1], vec![], vec![]),
        AccountAddress::new(9),
        ChainId::new(4),
    );
    samples.push(SignedTransaction::new_multi_agent(
        scripted,
        AccountAuthenticator::multi_ed25519(bundle, MultiEd25519Signature::new(vec![])),
        vec![],
        vec![],
    ));
    samples
}

#[test]
fn signed_transactions_round_trip_through_their_bytes() {
    for txn in signed_samples() {
        let bytes = txn.to_bytes();
        let back = SignedTransaction::from_bytes(&bytes).unwrap();
        assert_eq!(back, txn);
        assert_eq!(back.to_bytes(), bytes);
    }
}

#[test]
fn bytes_that_are_no_transaction_are_refused() {
    assert_eq!(SignedTransaction::from_bytes(&[]), None);
    for txn in signed_samples() {
        let bytes = txn.to_bytes();
        // a byte too many or too few
        let mut longer = bytes.clone();
        longer.push(0);
        assert_eq!(SignedTransaction::from_bytes(&longer), None);
        assert_eq!(SignedTransaction::from_bytes(&bytes[..bytes.len() - 1]), None);
        // a payload of no kind
        let mut other = bytes.clone();
        other[24] = 9;
        assert_eq!(SignedTransaction::from_bytes(&other), None);
    }
    // a length that is not in its shortest form
    let bytes = signed_samples()[0].to_bytes();
    assert_eq!(&bytes[25..29], &[3, 1, 2, 3]);
    let mut padded = bytes[..25].to_vec();
    padded.extend([0x83, 0x00, 1, 2, 3]);
    padded.extend(&bytes[29..]);
    assert_eq!(SignedTransaction::from_bytes(&padded), None);
    // a currency code that is no text
    let at = bytes.len() - 8 - 1 - 99 - 3;
    assert_eq!(&bytes[at..at + 3], b"XUS");
    let mut garbled = bytes.clone();
    garbled[at] = 0xff;
    assert_eq!(SignedTransaction::from_bytes(&garbled), None);
}
