use diem_core::account_address::AccountAddress;
use diem_core::accumulator::{
    AccumulatorProof, AccumulatorRangeProof, InMemoryAccumulator, ProofError,
};
use diem_core::crypto::{Ed25519PublicKey, Ed25519Signature};
use diem_core::hash::{HashDomain, HashValue};
use diem_core::transaction::status::KeptVMStatus;
use diem_core::transaction::with_proof::{
    compute_event_root, verify_events_against_root_hash, AccountTransactionsWithProof,
    LedgerInfo, TransactionInfo, TransactionInfoListWithProof, TransactionInfoWithProof,
    TransactionListWithProof, TransactionOutput, TransactionOutputListWithProof,
    TransactionWithProof, VerifyError,
};
use diem_core::transaction::status::TransactionStatus;
use diem_core::transaction::{
    ChainId, ChangeSet, ContractEvent, RawTransaction, Script, SignedTransaction, Transaction,
    WriteSet, WriteSetPayload,
};

const TXN: HashDomain = HashDomain::TransactionAccumulator;

fn node(left: HashValue, right: HashValue) -> HashValue {
    let mut both = left.to_vec();
    both.extend(right.to_vec());
    TXN.hash(&both)
}

fn root_of(leaves: &[HashValue]) -> HashValue {
    InMemoryAccumulator::from_leaves(TXN, leaves).root_hash()
}

fn user_txn(sender: u128, seq: u64) -> Transaction {
    let raw = RawTransaction::new_script(
        AccountAddress::new(sender),
        seq,
        Script::new(vec![seq as u8], vec![], vec![]),
        10,
        1,
        "XUS".to_string(),
        100,
        ChainId::new(4),
    );
    Transaction::UserTransaction(SignedTransaction::new(
        raw,
        Ed25519PublicKey::new([1; 32]),
        Ed25519Signature::new([2; 64]),
    ))
}

fn event(n: u64) -> ContractEvent {
    ContractEvent::new(vec![n as u8; 8], n, vec![7], vec![n as u8, 1, 2])
}

fn info_for(txn: &Transaction, events: &[ContractEvent]) -> TransactionInfo {
    TransactionInfo::new(
        txn.hash(),
        HashValue::new([5; 32]),
        compute_event_root(events),
        7,
        KeptVMStatus::Executed,
    )
}

/// A ledger of 13 transactions: ten that are of no concern here, and three
/// user transactions at the versions 10, 11 and 12.
struct Ledger {
    txns: Vec<Transaction>,
    events: Vec<Vec<ContractEvent>>,
    infos: Vec<TransactionInfo>,
    leaves: Vec<HashValue>,
    ledger_info: LedgerInfo,
}

fn ledger() -> Ledger {
    let mut leaves: Vec<HashValue> = (0..10u8).map(|i| HashValue::new([i; 32])).collect();
    let txns = vec![user_txn(1, 0), user_txn(1, 1), user_txn(1, 2)];
    let events = vec![vec![event(1)], vec![event(2), event(3)], vec![]];
    let infos: Vec<TransactionInfo> = txns
        .iter()
        .zip(&events)
        .map(|(t, e)| info_for(t, e))
        .collect();
    leaves.extend(infos.iter().map(|i| i.hash()));
    let ledger_info = LedgerInfo::new(1, 12, root_of(&leaves));
    Ledger {
        txns,
        events,
        infos,
        leaves,
        ledger_info,
    }
}

fn range_proof(l: &Ledger) -> AccumulatorRangeProof {
    // on the way up from the leaves 10..=12: on the left the subtree over
    // the leaves 8 and 9, then the one over the leaves 0..8; on the right
    // nothing but empty subtrees
    let p = HashValue::accumulator_placeholder();
    AccumulatorRangeProof::new(
        vec![root_of(&l.leaves[8..10]), root_of(&l.leaves[0..8])],
        vec![p, p],
    )
}

fn list(l: &Ledger) -> TransactionListWithProof {
    TransactionListWithProof::new(
        l.txns.clone(),
        Some(l.events.clone()),
        Some(10),
        TransactionInfoListWithProof::new(range_proof(l), l.infos.clone()),
    )
}

#[test]
fn accumulator_roots() {
    let p = HashValue::accumulator_placeholder();
    let h: Vec<HashValue> = (1..=5u8).map(|i| HashValue::new([i; 32])).collect();
    assert_eq!(root_of(&[]), p);
    assert_eq!(root_of(&h[..1]), h[0]);
    assert_eq!(root_of(&h[..2]), node(h[0], h[1]));
    assert_eq!(root_of(&h[..3]), node(node(h[0], h[1]), node(h[2], p)));
    assert_eq!(
        root_of(&h[..5]),
        node(
            node(node(h[0], h[1]), node(h[2], h[3])),
            node(node(h[4], p), p)
        )
    );
    assert_eq!(InMemoryAccumulator::from_leaves(TXN, &h).num_leaves(), 5);
    // the hasher of events is another one
    assert_ne!(
        InMemoryAccumulator::from_leaves(HashDomain::EventAccumulator, &h[..2]).root_hash(),
        root_of(&h[..2])
    );
}

#[test]
fn event_roots() {
    assert_eq!(compute_event_root(&[]), HashValue::accumulator_placeholder());
    assert_eq!(compute_event_root(&[event(1)]), event(1).hash());
    let mut both = event(1).hash().to_vec();
    both.extend(event(2).hash().to_vec());
    assert_eq!(
        compute_event_root(&[event(1), event(2)]),
        HashDomain::EventAccumulator.hash(&both)
    );
    let txn = user_txn(1, 0);
    let info = info_for(&txn, &[event(1), event(2)]);
    assert_eq!(
        verify_events_against_root_hash(&[event(1), event(2)], &info),
        Ok(())
    );
    assert_eq!(
        verify_events_against_root_hash(&[event(2), event(1)], &info),
        Err(VerifyError::EventRootMismatch)
    );
    assert_eq!(
        verify_events_against_root_hash(&[], &info),
        Err(VerifyError::EventRootMismatch)
    );
}

#[test]
fn proof_of_a_single_leaf() {
    let l = ledger();
    let p = HashValue::accumulator_placeholder();
    // the leaf 11: beside it the leaf 10, then the subtree over 8 and 9,
    // then the subtree over 12..16, then the subtree over 0..8
    let siblings = vec![
        l.leaves[10],
        root_of(&l.leaves[8..10]),
        node(node(l.leaves[12], p), p),
        root_of(&l.leaves[0..8]),
    ];
    let proof = AccumulatorProof::new(siblings.clone());
    let root = l.ledger_info.transaction_accumulator_hash();
    assert_eq!(proof.verify(TXN, root, l.leaves[11], 11), Ok(()));
    assert_eq!(
        proof.verify(TXN, root, l.leaves[11], 10),
        Err(ProofError::RootMismatch)
    );
    assert_eq!(
        proof.verify(TXN, root, l.leaves[10], 11),
        Err(ProofError::RootMismatch)
    );
    assert_eq!(
        AccumulatorProof::new(vec![p; 64]).verify(TXN, root, l.leaves[11], 11),
        Err(ProofError::TooManySiblings)
    );

    let with_proof = TransactionWithProof::new(
        11,
        l.txns[1].clone(),
        Some(l.events[1].clone()),
        TransactionInfoWithProof::new(proof, l.infos[1]),
    );
    let a = AccountAddress::new(1);
    assert_eq!(with_proof.verify_user_txn(&l.ledger_info, 11, a, 1), Ok(()));
    assert_eq!(
        with_proof.verify_user_txn(&l.ledger_info, 12, a, 1),
        Err(VerifyError::VersionMismatch)
    );
    assert_eq!(
        with_proof.verify_user_txn(&l.ledger_info, 11, AccountAddress::new(2), 1),
        Err(VerifyError::SenderMismatch)
    );
    assert_eq!(
        with_proof.verify_user_txn(&l.ledger_info, 11, a, 2),
        Err(VerifyError::SequenceNumberMismatch)
    );
    let old = LedgerInfo::new(1, 10, root);
    assert_eq!(
        with_proof.verify_user_txn(&old, 11, a, 1),
        Err(VerifyError::VersionNewerThanLedger)
    );
    let other = LedgerInfo::new(1, 12, HashValue::zero());
    assert_eq!(
        with_proof.verify_user_txn(&other, 11, a, 1),
        Err(VerifyError::Proof(ProofError::RootMismatch))
    );

    let mut wrong_events = with_proof.events.clone().unwrap();
    wrong_events.pop();
    let t = TransactionWithProof::new(
        11,
        l.txns[1].clone(),
        Some(wrong_events),
        with_proof.proof.clone(),
    );
    assert_eq!(
        t.verify_user_txn(&l.ledger_info, 11, a, 1),
        Err(VerifyError::EventRootMismatch)
    );
    let t = TransactionWithProof::new(11, l.txns[1].clone(), None, with_proof.proof.clone());
    assert_eq!(t.verify_user_txn(&l.ledger_info, 11, a, 1), Ok(()));
    let t = TransactionWithProof::new(11, l.txns[0].clone(), None, with_proof.proof.clone());
    assert_eq!(
        t.verify_user_txn(&l.ledger_info, 11, a, 0),
        Err(VerifyError::TransactionHashMismatch)
    );
    let genesis = Transaction::GenesisTransaction(WriteSetPayload::Direct(ChangeSet::new(
        WriteSet::new(vec![]),
        vec![],
    )));
    let t = TransactionWithProof::new(11, genesis, None, with_proof.proof.clone());
    assert_eq!(
        t.verify_user_txn(&l.ledger_info, 11, a, 1),
        Err(VerifyError::NotUserTransaction)
    );
    assert_eq!(
        VerifyError::NotUserTransaction.description(),
        "Not a user transaction."
    );
}

#[test]
fn transaction_list_verify() {
    let l = ledger();
    let good = list(&l);
    assert_eq!(good.verify(&l.ledger_info, Some(10)), Ok(()));
    assert_eq!(
        good.verify(&l.ledger_info, Some(11)),
        Err(VerifyError::FirstVersionMismatch)
    );
    assert_eq!(
        good.verify(&l.ledger_info, None),
        Err(VerifyError::FirstVersionMismatch)
    );

    // one event of the second list is changed
    let mut events = l.events.clone();
    events[1][0] = event(9);
    let mutated = TransactionListWithProof::new(
        l.txns.clone(),
        Some(events),
        Some(10),
        TransactionInfoListWithProof::new(range_proof(&l), l.infos.clone()),
    );
    let result = mutated.verify(&l.ledger_info, Some(10));
    assert_eq!(result, Err(VerifyError::EventRootMismatch));
    assert_eq!(
        result.unwrap_err().description(),
        "Event root hash is not expected."
    );

    // without events the list is accepted too
    let bare = TransactionListWithProof::new(
        l.txns.clone(),
        None,
        Some(10),
        TransactionInfoListWithProof::new(range_proof(&l), l.infos.clone()),
    );
    assert_eq!(bare.verify(&l.ledger_info, Some(10)), Ok(()));

    let short_events = TransactionListWithProof::new(
        l.txns.clone(),
        Some(l.events[..2].to_vec()),
        Some(10),
        TransactionInfoListWithProof::new(range_proof(&l), l.infos.clone()),
    );
    assert_eq!(
        short_events.verify(&l.ledger_info, Some(10)),
        Err(VerifyError::EventListCountMismatch)
    );

    let short_infos = TransactionListWithProof::new(
        l.txns.clone(),
        None,
        Some(10),
        TransactionInfoListWithProof::new(range_proof(&l), l.infos[..2].to_vec()),
    );
    assert_eq!(
        short_infos.verify(&l.ledger_info, Some(10)),
        Err(VerifyError::InfoCountMismatch)
    );

    let mut swapped = l.txns.clone();
    swapped.swap(0, 1);
    let wrong_txns = TransactionListWithProof::new(
        swapped,
        None,
        Some(10),
        TransactionInfoListWithProof::new(range_proof(&l), l.infos.clone()),
    );
    assert_eq!(
        wrong_txns.verify(&l.ledger_info, Some(10)),
        Err(VerifyError::TransactionHashMismatch)
    );

    let other = LedgerInfo::new(1, 12, HashValue::zero());
    assert_eq!(
        good.verify(&other, Some(10)),
        Err(VerifyError::Proof(ProofError::RootMismatch))
    );

    // a proof at another place
    let misplaced = TransactionListWithProof::new(
        l.txns.clone(),
        None,
        Some(9),
        TransactionInfoListWithProof::new(range_proof(&l), l.infos.clone()),
    );
    assert!(misplaced.verify(&l.ledger_info, Some(9)).is_err());
}

#[test]
fn range_proofs_ask_for_their_siblings() {
    let l = ledger();
    let root = l.ledger_info.transaction_accumulator_hash();
    let p = HashValue::accumulator_placeholder();
    let leaves = &l.leaves[10..13];
    let left = vec![root_of(&l.leaves[8..10]), root_of(&l.leaves[0..8])];
    let check = |left: Vec<HashValue>, right: Vec<HashValue>, first: Option<u64>, leaves: &[HashValue]| {
        AccumulatorRangeProof::new(left, right).verify(TXN, root, first, leaves)
    };
    assert_eq!(check(left.clone(), vec![p, p], Some(10), leaves), Ok(()));
    assert_eq!(
        check(left.clone(), vec![], Some(10), leaves),
        Err(ProofError::MissingRightSibling)
    );
    assert_eq!(
        check(vec![], vec![p, p], Some(10), leaves),
        Err(ProofError::MissingLeftSibling)
    );
    assert_eq!(
        check(left.clone(), vec![p, p, p], Some(10), leaves),
        Err(ProofError::RootMismatch)
    );
    assert_eq!(
        check(left.clone(), vec![p, p], Some(10), &[]),
        Err(ProofError::NoLeaves)
    );
    assert_eq!(
        check(left.clone(), vec![p; 64], Some(10), leaves),
        Err(ProofError::TooManySiblings)
    );
    assert_eq!(check(vec![], vec![], None, &[]), Ok(()));
    assert_eq!(
        check(vec![], vec![], None, leaves),
        Err(ProofError::NotEmpty)
    );
    assert_eq!(check(vec![p], vec![], None, &[]), Err(ProofError::NotEmpty));
    // the whole ledger needs no sibling but the empty subtrees on the right
    assert_eq!(check(vec![], vec![p, p], Some(0), &l.leaves), Ok(()));
}

#[test]
fn empty_list_verifies_against_any_ledger_info() {
    let empty = TransactionListWithProof::new_empty();
    for info in [
        LedgerInfo::new(0, 0, HashValue::zero()),
        LedgerInfo::new(7, 1234, HashValue::new([9; 32])),
        ledger().ledger_info,
    ] {
        assert_eq!(empty.verify(&info, None), Ok(()));
        assert_eq!(
            empty.verify(&info, Some(0)),
            Err(VerifyError::FirstVersionMismatch)
        );
        assert_eq!(
            TransactionOutputListWithProof::new_empty().verify(&info, None),
            Ok(())
        );
    }
}

#[test]
fn output_list_verify() {
    let l = ledger();
    let outputs = |events: &Vec<Vec<ContractEvent>>| -> Vec<TransactionOutput> {
        events
            .iter()
            .map(|e| {
                TransactionOutput::new(
                    WriteSet::new(vec![1]),
                    e.clone(),
                    7,
                    TransactionStatus::Keep(KeptVMStatus::Executed),
                )
            })
            .collect()
    };
    let proof = || TransactionInfoListWithProof::new(range_proof(&l), l.infos.clone());
    let good = TransactionOutputListWithProof::new(outputs(&l.events), Some(10), proof());
    assert_eq!(good.verify(&l.ledger_info, Some(10)), Ok(()));
    assert_eq!(
        good.verify(&l.ledger_info, Some(12)),
        Err(VerifyError::FirstVersionMismatch)
    );
    let mut events = l.events.clone();
    events[2].push(event(4));
    let bad = TransactionOutputListWithProof::new(outputs(&events), Some(10), proof());
    assert_eq!(
        bad.verify(&l.ledger_info, Some(10)),
        Err(VerifyError::EventRootMismatch)
    );
    let short =
        TransactionOutputListWithProof::new(outputs(&l.events[..2].to_vec()), Some(10), proof());
    assert_eq!(
        short.verify(&l.ledger_info, Some(10)),
        Err(VerifyError::InfoCountMismatch)
    );
    let out = TransactionOutput::new(
        WriteSet::new(vec![1]),
        vec![event(1)],
        7,
        TransactionStatus::Retry,
    );
    assert_eq!(out.gas_used(), 7);
    assert_eq!(out.status(), &TransactionStatus::Retry);
    assert_eq!(out.events(), &[event(1)]);
    assert_eq!(out.write_set(), &WriteSet::new(vec![1]));
    assert_eq!(out.into(), (WriteSet::new(vec![1]), vec![event(1)]));
}

#[test]
fn account_transactions_verify() {
    let l = ledger();
    let p = HashValue::accumulator_placeholder();
    let proofs = [
        vec![
            l.leaves[11],
            root_of(&l.leaves[8..10]),
            node(node(l.leaves[12], p), p),
            root_of(&l.leaves[0..8]),
        ],
        vec![
            l.leaves[10],
            root_of(&l.leaves[8..10]),
            node(node(l.leaves[12], p), p),
            root_of(&l.leaves[0..8]),
        ],
    ];
    let items = |with_events: bool| -> Vec<TransactionWithProof> {
        (0..2)
            .map(|i| {
                TransactionWithProof::new(
                    10 + i as u64,
                    l.txns[i].clone(),
                    if with_events {
                        Some(l.events[i].clone())
                    } else {
                        None
                    },
                    TransactionInfoWithProof::new(
                        AccumulatorProof::new(proofs[i].clone()),
                        l.infos[i],
                    ),
                )
            })
            .collect()
    };
    let a = AccountAddress::new(1);
    let txns = AccountTransactionsWithProof::new(items(true));
    assert_eq!(txns.len(), 2);
    assert!(!txns.is_empty());
    assert_eq!(txns.verify(&l.ledger_info, a, 0, 2, true, 12), Ok(()));
    assert_eq!(txns.verify(&l.ledger_info, a, 0, 10, true, 11), Ok(()));
    assert_eq!(
        txns.verify(&l.ledger_info, a, 0, 1, true, 12),
        Err(VerifyError::TooManyTransactions)
    );
    assert_eq!(
        txns.verify(&l.ledger_info, a, 0, 2, false, 12),
        Err(VerifyError::UnexpectedOrMissingEvents)
    );
    assert_eq!(
        txns.verify(&l.ledger_info, a, 0, 2, true, 10),
        Err(VerifyError::VersionNewerThanRequested)
    );
    assert_eq!(
        txns.verify(&l.ledger_info, a, 1, 2, true, 12),
        Err(VerifyError::SequenceNumberMismatch)
    );
    assert_eq!(
        txns.verify(&l.ledger_info, AccountAddress::new(2), 0, 2, true, 12),
        Err(VerifyError::SenderMismatch)
    );
    let bare = AccountTransactionsWithProof::new(items(false));
    assert_eq!(bare.verify(&l.ledger_info, a, 0, 2, false, 12), Ok(()));
    let none = AccountTransactionsWithProof::new_empty();
    assert!(none.is_empty());
    assert_eq!(none.verify(&l.ledger_info, a, 0, 0, true, 0), Ok(()));
    assert_eq!(bare.inner().len(), 2);
    assert_eq!(bare.into_inner().len(), 2);
}
