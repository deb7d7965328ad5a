use diem_core::account_address::AccountAddress;
use diem_core::crypto::{Ed25519PrivateKey, Ed25519PublicKey, Ed25519Signature};
use diem_core::mempool::pool::Mempool;
use diem_core::mempool::status::MempoolStatusCode;
use diem_core::mempool::transaction::{AccountSequenceInfo, TimelineState};
use diem_core::mempool::transaction_store::MempoolConfig;
use diem_core::transaction::status::GovernanceRole;
use diem_core::transaction::{ChainId, RawTransaction, Script, SignedTransaction};

fn config(capacity: usize, capacity_per_user: usize) -> MempoolConfig {
    MempoolConfig {
        capacity,
        capacity_per_user,
        system_transaction_timeout_secs: 1000,
    }
}

fn txn(sender: u128, seq: u64, gas_price: u64) -> SignedTransaction {
    txn_with(sender, seq, gas_price, vec![1, 2, 3], 100)
}

fn txn_with(
    sender: u128,
    seq: u64,
    gas_price: u64,
    code: Vec<u8>,
    max_gas: u64,
) -> SignedTransaction {
    let raw = RawTransaction::new_script(
        AccountAddress::new(sender),
        seq,
        Script::new(code, vec![], vec![]),
        max_gas,
        gas_price,
        "XUS".to_string(),
        1_000_000,
        ChainId::new(4),
    );
    SignedTransaction::new(
        raw,
        Ed25519PublicKey::new([7u8; 32]),
        Ed25519Signature::new([9u8; 64]),
    )
}

fn add(pool: &mut Mempool, t: SignedTransaction, account_seq: u64) -> MempoolStatusCode {
    let score = t.gas_unit_price();
    pool.add_txn(
        t,
        0,
        score,
        AccountSequenceInfo::Sequential(account_seq),
        TimelineState::NotReady,
        GovernanceRole::NonGovernanceRole,
        10,
    )
    .code
}

fn pointers(block: &[SignedTransaction]) -> Vec<(u128, u64)> {
    block
        .iter()
        .map(|t| (t.sender().value, t.sequence_number()))
        .collect()
}

#[test]
fn ordering_across_gaps() {
    let mut pool = Mempool::new(&config(100, 100));
    assert_eq!(add(&mut pool, txn(1, 5, 1), 5), MempoolStatusCode::Accepted);
    assert_eq!(add(&mut pool, txn(1, 7, 2), 5), MempoolStatusCode::Accepted);
    assert_eq!(add(&mut pool, txn(1, 8, 3), 5), MempoolStatusCode::Accepted);
    let block = pool.get_block(10, vec![]);
    assert_eq!(pointers(&block), vec![(1, 5)]);
    assert_eq!(pool.get_parking_lot_size(), 2);

    pool.remove_transaction(&AccountAddress::new(1), 5, false, 11);
    let block = pool.get_block(10, vec![]);
    assert!(block.is_empty());
    assert_eq!(pool.get_parking_lot_size(), 2);
    let snapshot = pool.gen_snapshot();
    assert_eq!(snapshot.len(), 2);
    assert!(snapshot.iter().all(|e| e.parked));
}

#[test]
fn gas_price_replacement() {
    let mut pool = Mempool::new(&config(100, 100));
    assert_eq!(add(&mut pool, txn(1, 5, 10), 5), MempoolStatusCode::Accepted);
    let first_hash = txn(1, 5, 10).committed_hash();
    assert_eq!(add(&mut pool, txn(1, 5, 20), 5), MempoolStatusCode::Accepted);
    assert!(pool.get_by_hash(first_hash).is_none());
    assert_eq!(pool.gen_snapshot().len(), 1);
    let block = pool.get_block(10, vec![]);
    assert_eq!(block.len(), 1);
    assert_eq!(block[0].gas_unit_price(), 20);
    let (timeline, _) = pool.read_timeline(0, 10);
    assert_eq!(timeline.len(), 1);
    assert_eq!(timeline[0].gas_unit_price(), 20);
    assert_eq!(
        add(&mut pool, txn(1, 5, 5), 5),
        MempoolStatusCode::InvalidUpdate
    );
    let status = pool.add_txn(
        txn(1, 5, 5),
        0,
        5,
        AccountSequenceInfo::Sequential(5),
        TimelineState::NotReady,
        GovernanceRole::NonGovernanceRole,
        10,
    );
    assert_eq!(status.message, "Failed to update gas price to 5");
}

#[test]
fn update_with_other_payload_is_invalid() {
    let mut pool = Mempool::new(&config(100, 100));
    assert_eq!(add(&mut pool, txn(1, 5, 10), 5), MempoolStatusCode::Accepted);
    assert_eq!(
        add(&mut pool, txn_with(1, 5, 20, vec![9], 100), 5),
        MempoolStatusCode::InvalidUpdate
    );
    assert_eq!(
        add(&mut pool, txn_with(1, 5, 20, vec![1, 2, 3], 101), 5),
        MempoolStatusCode::InvalidUpdate
    );
}

#[test]
fn same_transaction_twice_is_accepted_and_changes_nothing() {
    let mut pool = Mempool::new(&config(100, 100));
    assert_eq!(add(&mut pool, txn(1, 0, 1), 0), MempoolStatusCode::Accepted);
    assert_eq!(add(&mut pool, txn(1, 2, 1), 0), MempoolStatusCode::Accepted);
    let before = pool.gen_snapshot();
    let timeline_before = pool.read_timeline(0, 10);
    assert_eq!(add(&mut pool, txn(1, 0, 1), 0), MempoolStatusCode::Accepted);
    assert_eq!(add(&mut pool, txn(1, 2, 1), 0), MempoolStatusCode::Accepted);
    assert_eq!(pool.gen_snapshot(), before);
    assert_eq!(pool.read_timeline(0, 10), timeline_before);
    assert_eq!(pool.get_block(10, vec![]).len(), 1);
}

#[test]
fn old_sequence_number_is_refused() {
    let mut pool = Mempool::new(&config(100, 100));
    let status = pool.add_txn(
        txn(1, 3, 1),
        0,
        1,
        AccountSequenceInfo::Sequential(5),
        TimelineState::NotReady,
        GovernanceRole::NonGovernanceRole,
        10,
    );
    assert_eq!(status.code, MempoolStatusCode::InvalidSeqNumber);
    assert_eq!(
        status.message,
        "transaction sequence number is 3, current sequence number is  5"
    );
    assert!(pool.gen_snapshot().is_empty());
}

#[test]
fn full_mempool_refuses_non_ready_and_evicts_for_ready() {
    let mut pool = Mempool::new(&config(2, 100));
    assert_eq!(add(&mut pool, txn(1, 0, 1), 0), MempoolStatusCode::Accepted);
    assert_eq!(add(&mut pool, txn(1, 5, 1), 0), MempoolStatusCode::Accepted);
    assert_eq!(pool.get_parking_lot_size(), 1);
    // not ready: refused, and the parking lot stays as it is
    let status = pool.add_txn(
        txn(2, 7, 1),
        0,
        1,
        AccountSequenceInfo::Sequential(0),
        TimelineState::NotReady,
        GovernanceRole::NonGovernanceRole,
        10,
    );
    assert_eq!(status.code, MempoolStatusCode::MempoolIsFull);
    assert_eq!(status.message, "mempool size: 2, capacity: 2");
    assert_eq!(pool.get_parking_lot_size(), 1);
    assert_eq!(pool.gen_snapshot().len(), 2);
    // ready: the parked transaction leaves
    assert_eq!(add(&mut pool, txn(2, 0, 1), 0), MempoolStatusCode::Accepted);
    assert_eq!(pool.get_parking_lot_size(), 0);
    let snapshot = pool.gen_snapshot();
    assert_eq!(snapshot.len(), 2);
    assert!(snapshot.iter().all(|e| !e.parked));
    // ready, but nothing is parked: refused
    assert_eq!(
        add(&mut pool, txn(3, 0, 1), 0),
        MempoolStatusCode::MempoolIsFull
    );
}

#[test]
fn too_many_transactions_of_one_account() {
    let mut pool = Mempool::new(&config(100, 2));
    assert_eq!(add(&mut pool, txn(1, 0, 1), 0), MempoolStatusCode::Accepted);
    assert_eq!(add(&mut pool, txn(1, 1, 1), 0), MempoolStatusCode::Accepted);
    let status = pool.add_txn(
        txn(1, 2, 1),
        0,
        1,
        AccountSequenceInfo::Sequential(0),
        TimelineState::NotReady,
        GovernanceRole::NonGovernanceRole,
        10,
    );
    assert_eq!(status.code, MempoolStatusCode::TooManyTransactions);
    assert_eq!(status.message, "txns length: 2 capacity per user: 2");
    assert_eq!(add(&mut pool, txn(2, 0, 1), 0), MempoolStatusCode::Accepted);
}

#[test]
fn block_goes_by_score_and_keeps_the_sequence_of_an_account() {
    let mut pool = Mempool::new(&config(100, 100));
    assert_eq!(add(&mut pool, txn(1, 0, 1), 0), MempoolStatusCode::Accepted);
    assert_eq!(add(&mut pool, txn(1, 1, 10), 0), MempoolStatusCode::Accepted);
    assert_eq!(add(&mut pool, txn(2, 0, 5), 0), MempoolStatusCode::Accepted);
    assert_eq!(add(&mut pool, txn(1, 2, 7), 0), MempoolStatusCode::Accepted);
    let block = pool.get_block(10, vec![]);
    // (1,1) and (1,2) rank first but wait for (1,0); (2,0) goes before (1,0)
    assert_eq!(pointers(&block), vec![(2, 0), (1, 0), (1, 1), (1, 2)]);
    // a block of two
    let block = pool.get_block(2, vec![]);
    assert_eq!(pointers(&block), vec![(2, 0), (1, 0)]);
    // what consensus has seen is passed over, and its successor may go
    let block = pool.get_block(10, vec![(AccountAddress::new(1), 0)]);
    assert_eq!(pointers(&block), vec![(1, 1), (1, 2), (2, 0)]);
    assert!(pool.get_block(0, vec![]).is_empty());
}

#[test]
fn equal_scores_go_in_the_order_of_submission() {
    let mut pool = Mempool::new(&config(100, 100));
    assert_eq!(add(&mut pool, txn(3, 0, 4), 0), MempoolStatusCode::Accepted);
    assert_eq!(add(&mut pool, txn(1, 0, 4), 0), MempoolStatusCode::Accepted);
    assert_eq!(add(&mut pool, txn(2, 0, 4), 0), MempoolStatusCode::Accepted);
    let block = pool.get_block(10, vec![]);
    assert_eq!(pointers(&block), vec![(3, 0), (1, 0), (2, 0)]);
}

#[test]
fn timeline_ids_rise_and_ranges_are_half_open() {
    let mut pool = Mempool::new(&config(100, 100));
    for seq in 0..5u64 {
        assert_eq!(add(&mut pool, txn(1, seq, 1), 0), MempoolStatusCode::Accepted);
    }
    let (batch, last) = pool.read_timeline(0, 3);
    assert_eq!(pointers(&batch), vec![(1, 0), (1, 1), (1, 2)]);
    assert_eq!(last, 3);
    let (batch, last) = pool.read_timeline(last, 10);
    assert_eq!(pointers(&batch), vec![(1, 3), (1, 4)]);
    assert_eq!(last, 5);
    let (batch, last) = pool.read_timeline(5, 10);
    assert!(batch.is_empty());
    assert_eq!(last, 5);
    assert_eq!(pointers(&pool.timeline_range(1, 3)), vec![(1, 1), (1, 2)]);
    assert!(pool.timeline_range(3, 1).is_empty());
}

#[test]
fn non_qualified_transactions_stay_off_the_timeline() {
    let mut pool = Mempool::new(&config(100, 100));
    let status = pool.add_txn(
        txn(1, 0, 1),
        0,
        1,
        AccountSequenceInfo::Sequential(0),
        TimelineState::NonQualified,
        GovernanceRole::NonGovernanceRole,
        10,
    );
    assert_eq!(status.code, MempoolStatusCode::Accepted);
    assert!(pool.read_timeline(0, 10).0.is_empty());
    assert_eq!(pool.get_block(10, vec![]).len(), 1);
}

#[test]
fn commit_promotes_what_follows() {
    let mut pool = Mempool::new(&config(100, 100));
    assert_eq!(add(&mut pool, txn(1, 1, 1), 0), MempoolStatusCode::Accepted);
    assert_eq!(add(&mut pool, txn(1, 2, 1), 0), MempoolStatusCode::Accepted);
    assert_eq!(pool.get_parking_lot_size(), 2);
    assert!(pool.get_block(10, vec![]).is_empty());
    pool.remove_transaction(&AccountAddress::new(1), 0, false, 11);
    assert_eq!(pool.get_parking_lot_size(), 0);
    assert_eq!(pointers(&pool.get_block(10, vec![])), vec![(1, 1), (1, 2)]);
}

#[test]
fn rejection_drops_one_transaction_only() {
    let mut pool = Mempool::new(&config(100, 100));
    assert_eq!(add(&mut pool, txn(1, 0, 1), 0), MempoolStatusCode::Accepted);
    assert_eq!(add(&mut pool, txn(1, 1, 1), 0), MempoolStatusCode::Accepted);
    pool.remove_transaction(&AccountAddress::new(1), 1, true, 11);
    let snapshot = pool.gen_snapshot();
    assert_eq!(snapshot.len(), 1);
    assert_eq!(snapshot[0].sequence_number, 0);
    assert_eq!(pointers(&pool.get_block(10, vec![])), vec![(1, 0)]);
}

#[test]
fn system_gc_drops_expired_and_parks_followers() {
    let mut pool = Mempool::new(&config(100, 100));
    let add_at = |pool: &mut Mempool, seq: u64, now: u64| {
        pool.add_txn(
            txn(1, seq, 1),
            0,
            1,
            AccountSequenceInfo::Sequential(0),
            TimelineState::NotReady,
            GovernanceRole::NonGovernanceRole,
            now,
        )
        .code
    };
    assert_eq!(add_at(&mut pool, 0, 10), MempoolStatusCode::Accepted);
    assert_eq!(add_at(&mut pool, 1, 500), MempoolStatusCode::Accepted);
    assert_eq!(add_at(&mut pool, 2, 500), MempoolStatusCode::Accepted);
    // the first expires at 1010, the others at 1500
    pool.gc(1009);
    assert_eq!(pool.gen_snapshot().len(), 3);
    pool.gc(1010);
    let snapshot = pool.gen_snapshot();
    assert_eq!(snapshot.len(), 2);
    assert!(snapshot.iter().all(|e| e.parked));
    assert!(pool.get_block(10, vec![]).is_empty());
    assert!(pool.read_timeline(0, 10).0.is_empty());
    // garbage collection is idempotent
    pool.gc(1010);
    assert_eq!(pool.gen_snapshot(), snapshot);
}

#[test]
fn gc_by_client_expiration() {
    let mut pool = Mempool::new(&config(100, 100));
    assert_eq!(add(&mut pool, txn(1, 0, 1), 0), MempoolStatusCode::Accepted);
    pool.gc_by_expiration_time(999_999);
    assert_eq!(pool.gen_snapshot().len(), 1);
    pool.gc_by_expiration_time(1_000_000);
    assert!(pool.gen_snapshot().is_empty());
}

#[test]
fn window_accounts_promote_every_transaction_in_the_window() {
    let mut pool = Mempool::new(&config(100, 100));
    let add_crsn = |pool: &mut Mempool, seq: u64| {
        pool.add_txn(
            txn(1, seq, 1),
            0,
            1,
            AccountSequenceInfo::CRSN {
                min_nonce: 10,
                size: 5,
            },
            TimelineState::NotReady,
            GovernanceRole::NonGovernanceRole,
            10,
        )
        .code
    };
    assert_eq!(add_crsn(&mut pool, 12), MempoolStatusCode::Accepted);
    assert_eq!(add_crsn(&mut pool, 14), MempoolStatusCode::Accepted);
    assert_eq!(add_crsn(&mut pool, 15), MempoolStatusCode::Accepted);
    assert_eq!(add_crsn(&mut pool, 9), MempoolStatusCode::InvalidSeqNumber);
    assert_eq!(pool.get_parking_lot_size(), 1);
    assert_eq!(pointers(&pool.get_block(10, vec![])), vec![(1, 12), (1, 14)]);
}

#[test]
fn lookup_by_hash() {
    let mut pool = Mempool::new(&config(100, 100));
    assert_eq!(add(&mut pool, txn(1, 0, 1), 0), MempoolStatusCode::Accepted);
    let found = pool.get_by_hash(txn(1, 0, 1).committed_hash()).unwrap();
    assert_eq!(found, txn(1, 0, 1));
    assert!(pool.get_by_hash(txn(1, 1, 1).committed_hash()).is_none());
}

#[test]
fn private_key_type_is_usable() {
    let key = Ed25519PrivateKey::new([1u8; 32]);
    let signature = key.sign(b"message");
    assert!(key.public_key().verifies(b"message", &signature));
    assert!(!key.public_key().verifies(b"other", &signature));
}

#[test]
fn a_transaction_is_parked_or_ready_and_never_both() {
    let mut pool = Mempool::new(&config(100, 100));
    for (sender, seq) in [(1, 0), (1, 1), (1, 3), (2, 5), (2, 6), (3, 0)] {
        assert_eq!(
            add(&mut pool, txn(sender, seq, seq + 1), if sender == 2 { 4 } else { 0 }),
            MempoolStatusCode::Accepted
        );
    }
    let check = |pool: &Mempool| {
        let snapshot = pool.gen_snapshot();
        let seen: Vec<(AccountAddress, u64)> = vec![];
        let block = pointers(&pool.get_block(100, seen));
        let timeline = pointers(&pool.read_timeline(0, 100).0);
        for entry in &snapshot {
            let pointer = (entry.address.value, entry.sequence_number);
            if entry.parked {
                assert!(!block.contains(&pointer));
                assert!(!timeline.contains(&pointer));
            }
            // every transaction is found under its hash
            assert!(pool
                .get_by_hash(txn(pointer.0, pointer.1, pointer.1 + 1).committed_hash())
                .is_some());
        }
        for pointer in block.iter().chain(timeline.iter()) {
            assert!(snapshot
                .iter()
                .any(|e| (e.address.value, e.sequence_number) == *pointer && !e.parked));
        }
        snapshot.iter().filter(|e| e.parked).count()
    };
    // (1,3) waits for (1,2); the transactions of 2 wait for (2,4)
    assert_eq!(check(&pool), 3);
    assert_eq!(add(&mut pool, txn(1, 2, 3), 0), MempoolStatusCode::Accepted);
    assert_eq!(check(&pool), 2);
    pool.remove_transaction(&AccountAddress::new(2), 4, false, 11);
    assert_eq!(check(&pool), 0);
    pool.remove_transaction(&AccountAddress::new(1), 1, true, 11);
    check(&pool);
    pool.gc(1_000_000);
    assert!(pool.gen_snapshot().is_empty());
    assert_eq!(check(&pool), 0);
}
