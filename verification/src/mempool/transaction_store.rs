//! The store of all transactions in the mempool: the transactions themselves
//! and the indices over them. Every change of the store goes through it, so
//! that the indices stay in step with the transactions.

use crate::account_address::AccountAddress;
use crate::hash::HashValue;
use crate::mempool::index::{
    find, hash_lookup, holds, range_keys, read_keys, HashIndex, IndexKey, ParkingLotIndex,
    PriorityIndex, TTLIndex, TimelineIndex,
};
use crate::mempool::model::{
    cleaned, cleaned_from, collected, collected_from, count_for, evicted, evicts,
    inserted, inserted_message, is_committed, is_ready, lemma_cleaned_from, lemma_dropped_wf,
    lemma_entered_wf, lemma_parked_wf, lemma_place_unique,
    batch_matches, high_water_mark, lemma_contains_holds, lemma_promoted_wf,
    lemma_sorted_distinct, lemma_wf_parts, pointer_lt, processed, processed_from, sorted,
    txn_position, txn_ready, StoreView,
};
use crate::mempool::status::{MempoolStatus, MempoolStatusCode};
use crate::mempool::transaction::{AccountSequenceInfo, MempoolTransaction, TimelineState};
use crate::transaction::SignedTransaction;
use vstd::prelude::*;

verus! {

/// The limits of a mempool.
#[derive(Clone, Copy, Debug, PartialEq, Eq, Structural)]
pub struct MempoolConfig {
    /// The most transactions that the mempool holds.
    pub capacity: usize,
    /// The most transactions that the mempool holds of one account.
    pub capacity_per_user: usize,
    /// The seconds after which the mempool drops a transaction.
    pub system_transaction_timeout_secs: u64,
}

/// The store of all transactions in the mempool.
pub struct TransactionStore {
    transactions: Vec<MempoolTransaction>,
    priority_index: PriorityIndex,
    expiration_time_index: TTLIndex,
    system_ttl_index: TTLIndex,
    timeline_index: TimelineIndex,
    parking_lot_index: ParkingLotIndex,
    hash_index: HashIndex,
    capacity: usize,
    capacity_per_user: usize,
}

impl View for TransactionStore {
    type V = StoreView;

    closed spec fn view(&self) -> StoreView {
        StoreView {
            txns: self.transactions@,
            priority: self.priority_index.keys@,
            expiration: self.expiration_time_index.keys@,
            system_ttl: self.system_ttl_index.keys@,
            timeline: self.timeline_index.keys@,
            next_timeline_id: self.timeline_index.next_id,
            parking: self.parking_lot_index.keys@,
            hashes: self.hash_index@,
            capacity: self.capacity,
            capacity_per_user: self.capacity_per_user,
        }
    }
}

impl TransactionStore {
    /// The invariant of the store: that of what it holds.
    pub open spec fn wf(&self) -> bool {
        self@.wf()
    }

    /// An empty store with the limits of `config`.
    pub fn new(config: &MempoolConfig) -> (r: Self)
        ensures
            r.wf(),
            r@.txns.len() == 0,
            r@.priority.len() == 0,
            r@.expiration.len() == 0,
            r@.system_ttl.len() == 0,
            r@.timeline.len() == 0,
            r@.next_timeline_id == 1,
            r@.parking.len() == 0,
            r@.hashes.len() == 0,
            r@.capacity == config.capacity,
            r@.capacity_per_user == config.capacity_per_user,
    {
        reveal(StoreView::wf);
        TransactionStore {
            transactions: Vec::new(),
            priority_index: PriorityIndex::new(),
            expiration_time_index: TTLIndex::new(),
            system_ttl_index: TTLIndex::new(),
            timeline_index: TimelineIndex::new(),
            parking_lot_index: ParkingLotIndex::new(),
            hash_index: HashIndex::new(),
            capacity: config.capacity,
            capacity_per_user: config.capacity_per_user,
        }
    }

    /// The place of the transaction with the pointer, if the store holds it.
    fn position(&self, address: AccountAddress, sequence_number: u64) -> (r: Option<usize>)
        requires
            self.wf(),
        ensures
            r is Some <==> self@.has((address, sequence_number)),
            r is Some ==> r->Some_0 < self@.txns.len() && r->Some_0 == txn_position(
                self@.txns,
                (address, sequence_number),
            ) && self@.txns[r->Some_0 as int].pointer() == (address, sequence_number),
    {
        proof {
            lemma_wf_parts(self@);
        }
        let mut i: usize = 0;
        while i < self.transactions.len()
            invariant
                i <= self.transactions.len(),
                sorted(self@.txns),
                forall|j: int|
                    0 <= j < i ==> (#[trigger] self.transactions@[j]).pointer() != (
                        address,
                        sequence_number,
                    ),
            decreases self.transactions.len() - i,
        {
            let t = &self.transactions[i];
            if t.txn.raw_txn.sender == address && t.sequence_info.transaction_sequence_number
                == sequence_number {
                proof {
                    let p = txn_position(self@.txns, (address, sequence_number));
                    lemma_sorted_distinct(self@.txns, p, i as int);
                }
                return Some(i);
            }
            i += 1;
        }
        None
    }

    /// Takes the transaction at place `i` out of the store and of every
    /// index.
    #[verifier::rlimit(40)]
    fn drop_at(&mut self, i: usize)
        requires
            old(self).wf(),
            i < old(self)@.txns.len(),
        ensures
            final(self).wf(),
            final(self)@ == old(self)@.dropped(i as int),
    {
        proof {
            lemma_wf_parts(self@);
        }
        let txn = self.transactions.remove(i);
        let address = txn.txn.raw_txn.sender;
        let sequence_number = txn.sequence_info.transaction_sequence_number;
        self.system_ttl_index.remove(address, sequence_number);
        self.expiration_time_index.remove(address, sequence_number);
        self.priority_index.remove(address, sequence_number);
        self.timeline_index.remove(address, sequence_number);
        self.parking_lot_index.remove(address, sequence_number);
        self.hash_index.remove(address, sequence_number);
        proof {
            lemma_dropped_wf(old(self)@, i as int);
        }
    }

    /// Puts a transaction that the store does not hold at its place, into
    /// both indices of expiry and into the hash index.
    #[verifier::rlimit(40)]
    fn enter(&mut self, txn: MempoolTransaction)
        requires
            old(self).wf(),
            !old(self)@.has(txn.pointer()),
            old(self)@.txns.len() < old(self)@.capacity,
            count_for(old(self)@.txns, txn.pointer().0) < old(self)@.capacity_per_user,
        ensures
            final(self).wf(),
            final(self)@ == old(self)@.entered(txn),
    {
        proof {
            lemma_wf_parts(self@);
        }
        let address = txn.txn.raw_txn.sender;
        let sequence_number = txn.sequence_info.transaction_sequence_number;
        let mut n: usize = 0;
        while n < self.transactions.len() && Self::comes_before(
            &self.transactions[n],
            address,
            sequence_number,
        )
            invariant
                n <= self.transactions.len(),
                sorted(self@.txns),
                *self == *old(self),
                forall|j: int|
                    0 <= j < n ==> pointer_lt(
                        (#[trigger] self.transactions@[j]).pointer(),
                        (address, sequence_number),
                    ),
            decreases self.transactions.len() - n,
        {
            n += 1;
        }
        proof {
            assert forall|j: int| n <= j < self.transactions@.len() implies !pointer_lt(
                (#[trigger] self.transactions@[j]).pointer(),
                (address, sequence_number),
            ) by {
                if j > n {
                    assert(pointer_lt(
                        self.transactions@[n as int].pointer(),
                        self.transactions@[j].pointer(),
                    ));
                }
            }
            lemma_place_unique(self@.txns, n as int, (address, sequence_number));
            lemma_entered_wf(old(self)@, txn);
        }
        self.system_ttl_index.insert(txn.expiration_time, address, sequence_number);
        self.expiration_time_index.insert(
            txn.txn.raw_txn.expiration_timestamp_secs,
            address,
            sequence_number,
        );
        self.hash_index.insert(txn.get_committed_hash(), address, sequence_number);
        self.transactions.insert(n, txn);
    }

    fn comes_before(t: &MempoolTransaction, address: AccountAddress, sequence_number: u64) -> (r:
        bool)
        ensures
            r == pointer_lt(t.pointer(), (address, sequence_number)),
    {
        t.txn.raw_txn.sender.value < address.value || (t.txn.raw_txn.sender.value == address.value
            && t.sequence_info.transaction_sequence_number < sequence_number)
    }

    /// Promotes the transaction at place `i`.
    #[verifier::rlimit(40)]
    fn promote(&mut self, i: usize)
        requires
            old(self).wf(),
            i < old(self)@.txns.len(),
        ensures
            final(self).wf(),
            final(self)@ == old(self)@.promoted(i as int),
    {
        proof {
            lemma_wf_parts(self@);
        }
        let address = self.transactions[i].txn.raw_txn.sender;
        let sequence_number = self.transactions[i].sequence_info.transaction_sequence_number;
        let score = self.transactions[i].ranking_score;
        self.priority_index.insert(score, address, sequence_number);
        if self.transactions[i].timeline_state == TimelineState::NotReady {
            match self.timeline_index.insert(address, sequence_number) {
                Some(id) => {
                    self.transactions[i].timeline_state = TimelineState::Ready(id);
                },
                None => {},
            }
        }
        self.parking_lot_index.remove(address, sequence_number);
        proof {
            lemma_promoted_wf(old(self)@, i as int);
            assert(self@.txns =~= old(self)@.promoted(i as int).txns);
        }
    }

    /// Parks the transaction at place `i`.
    #[verifier::rlimit(40)]
    fn park(&mut self, i: usize)
        requires
            old(self).wf(),
            i < old(self)@.txns.len(),
        ensures
            final(self).wf(),
            final(self)@ == old(self)@.parked(i as int),
    {
        proof {
            lemma_wf_parts(self@);
        }
        let address = self.transactions[i].txn.raw_txn.sender;
        let sequence_number = self.transactions[i].sequence_info.transaction_sequence_number;
        self.parking_lot_index.insert(address, sequence_number);
        self.priority_index.remove(address, sequence_number);
        self.timeline_index.remove(address, sequence_number);
        proof {
            lemma_parked_wf(old(self)@, i as int);
        }
    }
}

impl TransactionStore {
    /// Takes out every transaction of the account with a sequence number
    /// below `sequence_number`: those were committed already.
    pub fn clean_committed_transactions(&mut self, address: AccountAddress, sequence_number: u64)
        requires
            old(self).wf(),
        ensures
            final(self).wf(),
            final(self)@ == cleaned(old(self)@, address, sequence_number),
    {
        let mut i: usize = 0;
        while i < self.transactions.len()
            invariant
                self.wf(),
                cleaned_from(self@, address, sequence_number, i as int) == cleaned(
                    old(self)@,
                    address,
                    sequence_number,
                ),
            decreases self.transactions.len() - i,
        {
            let committed = self.transactions[i].txn.raw_txn.sender == address
                && self.transactions[i].sequence_info.transaction_sequence_number < sequence_number;
            assert(committed == is_committed(self@, i as int, address, sequence_number));
            if committed {
                self.drop_at(i);
            } else {
                i += 1;
            }
        }
    }

    /// Promotes the ready transactions of the account and parks its other
    /// transactions.
    #[verifier::rlimit(40)]
    pub fn process_ready_transactions(
        &mut self,
        address: AccountAddress,
        crsn_or_seqno: AccountSequenceInfo,
    )
        requires
            old(self).wf(),
        ensures
            final(self).wf(),
            final(self)@ == processed(old(self)@, address, crsn_or_seqno),
    {
        let mut next: u128 = crsn_or_seqno.min_seq() as u128;
        let mut i: usize = 0;
        while i < self.transactions.len()
            invariant
                self.wf(),
                next <= crsn_or_seqno.spec_min_seq() + i,
                processed_from(self@, address, crsn_or_seqno, i as int, next as int) == processed(
                    old(self)@,
                    address,
                    crsn_or_seqno,
                ),
            decreases self.transactions.len() - i,
        {
            if self.transactions[i].txn.raw_txn.sender == address {
                let seq = self.transactions[i].sequence_info.transaction_sequence_number;
                let ready = match crsn_or_seqno {
                    AccountSequenceInfo::Sequential(_) => seq as u128 == next,
                    AccountSequenceInfo::CRSN { min_nonce, size } => seq >= min_nonce && seq
                        - min_nonce < size,
                };
                assert(ready == is_ready(crsn_or_seqno, next as int, seq));
                if ready {
                    proof {
                        lemma_promoted_wf(self@, i as int);
                    }
                    self.promote(i);
                    next += 1;
                } else {
                    self.park(i);
                }
            }
            i += 1;
        }
    }

    /// Takes out every transaction that is expired at `now`, by the time at
    /// which the mempool drops it or by the time at which its client lets it
    /// expire, and parks the transactions that follow an expired one in the
    /// sequence of its account.
    #[verifier::rlimit(40)]
    fn gc(&mut self, now: u64, by_system_ttl: bool)
        requires
            old(self).wf(),
        ensures
            final(self).wf(),
            final(self)@ == collected(old(self)@, now, by_system_ttl),
    {
        proof {
            lemma_wf_parts(self@);
        }
        let expired = if by_system_ttl {
            self.system_ttl_index.expired(now)
        } else {
            self.expiration_time_index.expired(now)
        };
        let mut flagged: Option<AccountAddress> = None;
        let mut i: usize = 0;
        while i < self.transactions.len()
            invariant
                self.wf(),
                collected_from(self@, expired@, i as int, flagged) == collected(
                    old(self)@,
                    now,
                    by_system_ttl,
                ),
            decreases self.transactions.len() - i,
        {
            let address = self.transactions[i].txn.raw_txn.sender;
            let seq = self.transactions[i].sequence_info.transaction_sequence_number;
            let follows = match flagged {
                Some(a) => a == address,
                None => false,
            };
            assert(follows == (flagged == Some(address)));
            if find(&expired, address, seq).is_some() {
                self.drop_at(i);
                flagged = Some(address);
            } else if follows {
                self.park(i);
                i += 1;
            } else {
                i += 1;
            }
        }
    }

    /// Garbage collection by the time at which the mempool drops a
    /// transaction.
    pub fn gc_by_system_ttl(&mut self, now: u64)
        requires
            old(self).wf(),
        ensures
            final(self).wf(),
            final(self)@ == collected(old(self)@, now, true),
    {
        self.gc(now, true);
    }

    /// Garbage collection by the time at which the client lets a transaction
    /// expire.
    pub fn gc_by_expiration_time(&mut self, block_time: u64)
        requires
            old(self).wf(),
        ensures
            final(self).wf(),
            final(self)@ == collected(old(self)@, block_time, false),
    {
        self.gc(block_time, false);
    }

    /// Whether a transaction would be ready as soon as it entered the store.
    fn check_txn_ready(&self, txn: &MempoolTransaction, curr_sequence_number: u64) -> (r: bool)
        requires
            self.wf(),
        ensures
            r == txn_ready(self@, *txn, curr_sequence_number),
    {
        let tx_sequence_number = txn.sequence_info.transaction_sequence_number;
        if tx_sequence_number == curr_sequence_number {
            return true;
        } else if tx_sequence_number == 0 {
            return false;
        }
        match self.position(txn.txn.raw_txn.sender, tx_sequence_number - 1) {
            Some(i) => match self.transactions[i].timeline_state {
                TimelineState::Ready(_) => true,
                _ => false,
            },
            None => false,
        }
    }

    /// Makes room for `txn` where the store is full and `txn` would be
    /// ready: the transaction that was parked last leaves. Returns whether
    /// the store is full all the same.
    fn check_is_full_after_eviction(&mut self, txn: &MempoolTransaction, curr_sequence_number: u64) -> (r:
        bool)
        requires
            old(self).wf(),
            curr_sequence_number
                == txn.sequence_info.account_sequence_number_type.spec_min_seq(),
        ensures
            final(self).wf(),
            final(self)@ == evicted(old(self)@, *txn),
            r == (final(self)@.txns.len() >= final(self)@.capacity),
    {
        if self.transactions.len() >= self.capacity && self.check_txn_ready(txn, curr_sequence_number) {
            match self.parking_lot_index.get_poppable() {
                Some(pointer) => match self.position(pointer.0, pointer.1) {
                    Some(i) => {
                        self.drop_at(i);
                    },
                    None => {},
                },
                None => {},
            }
        }
        self.transactions.len() >= self.capacity
    }

    /// The number of transactions of the account.
    fn count(&self, address: AccountAddress) -> (r: usize)
        ensures
            r == count_for(self@.txns, address),
    {
        let mut n: usize = 0;
        let mut i: usize = 0;
        assert(self@.txns.take(0) =~= Seq::<MempoolTransaction>::empty());
        while i < self.transactions.len()
            invariant
                i <= self.transactions.len(),
                n <= i,
                n == count_for(self@.txns.take(i as int), address),
            decreases self.transactions.len() - i,
        {
            proof {
                assert(self@.txns.take(i as int + 1).drop_last() =~= self@.txns.take(i as int));
            }
            if self.transactions[i].txn.raw_txn.sender == address {
                n += 1;
            }
            i += 1;
        }
        assert(self@.txns.take(i as int) =~= self@.txns);
        n
    }

    /// Submits a transaction to the store.
    #[verifier::rlimit(40)]
    pub fn insert(&mut self, txn: MempoolTransaction) -> (r: MempoolStatus)
        requires
            old(self).wf(),
        ensures
            final(self).wf(),
            (final(self)@, r.code) == inserted(old(self)@, txn),
            r.message@ == inserted_message(old(self)@, txn),
    {
        let address = txn.txn.raw_txn.sender;
        let info = txn.sequence_info.account_sequence_number_type;
        let sequence_number = txn.sequence_info.transaction_sequence_number;
        match self.position(address, sequence_number) {
            Some(i) => {
                let current = &self.transactions[i];
                if current.txn.same(&txn.txn) {
                    return MempoolStatus::new(MempoolStatusCode::Accepted);
                }
                if current.txn.raw_txn.max_gas_amount == txn.txn.raw_txn.max_gas_amount
                    && current.txn.raw_txn.payload.same(&txn.txn.raw_txn.payload)
                    && current.txn.raw_txn.expiration_timestamp_secs
                    == txn.txn.raw_txn.expiration_timestamp_secs && current.txn.raw_txn.gas_unit_price
                    < txn.txn.raw_txn.gas_unit_price {
                    self.drop_at(i);
                } else {
                    return MempoolStatus::invalid_update(txn.txn.raw_txn.gas_unit_price);
                }
            },
            None => {},
        }
        let ghost v1 = self@;
        proof {
            let v = old(self)@;
            if v.has((address, sequence_number)) {
                lemma_dropped_wf(v, txn_position(v.txns, (address, sequence_number)));
            }
            assert(!v1.has((address, sequence_number)));
            if evicts(v1, txn) {
                lemma_dropped_wf(v1, txn_position(v1.txns, v1.parking.last().pointer()));
            }
        }
        if self.check_is_full_after_eviction(&txn, info.min_seq()) {
            return MempoolStatus::full(self.transactions.len(), self.capacity);
        }
        proof {
            assert(!self@.has((address, sequence_number)));
            lemma_cleaned_from(self@, address, info.spec_min_seq(), 0);
        }
        self.clean_committed_transactions(address, info.min_seq());
        let length = self.count(address);
        if length >= self.capacity_per_user {
            return MempoolStatus::too_many(length, self.capacity_per_user);
        }
        self.enter(txn);
        self.process_ready_transactions(address, info);
        MempoolStatus::new(MempoolStatusCode::Accepted)
    }
}

/// A line of a snapshot of the store: a transaction, and whether it is
/// parked.
#[derive(Clone, Copy, Debug, PartialEq, Eq, Structural)]
pub struct SnapshotEntry {
    pub address: AccountAddress,
    pub sequence_number: u64,
    pub parked: bool,
}

impl TransactionStore {
    /// The signed transaction of the account with the sequence number.
    pub fn get(&self, address: &AccountAddress, sequence_number: u64) -> (r: Option<
        SignedTransaction,
    >)
        requires
            self.wf(),
        ensures
            r is Some <==> self@.has((*address, sequence_number)),
            r is Some ==> r->Some_0@ == self@.txns[txn_position(
                self@.txns,
                (*address, sequence_number),
            )].txn@,
    {
        match self.position(*address, sequence_number) {
            Some(i) => Some(self.transactions[i].txn.clone()),
            None => None,
        }
    }

    /// The signed transaction with the committed hash `hash`: the one that
    /// the hash index holds under it first.
    pub fn get_by_hash(&self, hash: HashValue) -> (r: Option<SignedTransaction>)
        requires
            self.wf(),
        ensures
            r is Some <==> hash_lookup(self@.hashes, hash@) is Some,
            r is Some ==> r->Some_0@ == self@.txns[txn_position(
                self@.txns,
                hash_lookup(self@.hashes, hash@)->Some_0,
            )].txn@,
    {
        match self.hash_index.get(&hash) {
            Some(pointer) => {
                proof {
                    lemma_wf_parts(self@);
                    crate::mempool::index::lemma_hash_lookup(self@.hashes, hash@);
                    let e = (hash@, pointer);
                    let i = choose|i: int| 0 <= i < self@.hashes.len() && self@.hashes[i] == e;
                    assert(self@.hashes[i].1 == pointer);
                    assert(crate::mempool::index::hash_holds(self@.hashes, pointer));
                }
                self.get(&pointer.0, pointer.1)
            },
            None => None,
        }
    }

    /// The transaction of the account with the sequence number, with what
    /// the mempool knows of it.
    pub fn get_mempool_txn(&self, address: &AccountAddress, sequence_number: u64) -> (r: Option<
        MempoolTransaction,
    >)
        requires
            self.wf(),
        ensures
            r is Some <==> self@.has((*address, sequence_number)),
            r is Some ==> r->Some_0.same_as(
                self@.txns[txn_position(self@.txns, (*address, sequence_number))],
            ),
    {
        match self.position(*address, sequence_number) {
            Some(i) => Some(self.transactions[i].clone()),
            None => None,
        }
    }

    /// How the sequence numbers of the account of a transaction go, as the
    /// transaction was submitted with it.
    pub fn sequence_type(&self, address: &AccountAddress, sequence_number: u64) -> (r: Option<
        AccountSequenceInfo,
    >)
        requires
            self.wf(),
        ensures
            r is Some <==> self@.has((*address, sequence_number)),
            r is Some ==> r->Some_0 == self@.txns[txn_position(
                self@.txns,
                (*address, sequence_number),
            )].sequence_info.account_sequence_number_type,
    {
        match self.position(*address, sequence_number) {
            Some(i) => Some(self.transactions[i].sequence_info.account_sequence_number_type),
            None => None,
        }
    }

    /// The signed transactions that the keys point at, in the order of the
    /// keys.
    pub fn collect(&self, keys: &Vec<IndexKey>) -> (r: Vec<SignedTransaction>)
        requires
            self.wf(),
            forall|k: int| 0 <= k < keys@.len() ==> self@.has((#[trigger] keys@[k]).pointer()),
        ensures
            batch_matches(self@, keys@, r@),
    {
        let mut batch: Vec<SignedTransaction> = Vec::new();
        let mut k: usize = 0;
        while k < keys.len()
            invariant
                k <= keys.len(),
                self.wf(),
                forall|j: int| 0 <= j < keys@.len() ==> self@.has((#[trigger] keys@[j]).pointer()),
                batch@.len() == k,
                forall|j: int|
                    0 <= j < k ==> (#[trigger] batch@[j])@ == self@.txns[txn_position(
                        self@.txns,
                        keys@[j].pointer(),
                    )].txn@,
            decreases keys.len() - k,
        {
            assert(self@.has(keys@[k as int].pointer()));
            match self.get(&keys[k].address, keys[k].sequence_number) {
                Some(txn) => {
                    batch.push(txn);
                },
                None => {},
            }
            k += 1;
        }
        batch
    }

    /// Reads up to `count` transactions from the timeline, those with ids
    /// above `timeline_id` in the order of their ids, and returns them with
    /// the id that the batch reaches up to.
    pub fn read_timeline(&self, timeline_id: u64, count: usize) -> (r: (Vec<SignedTransaction>, u64))
        requires
            self.wf(),
        ensures
            batch_matches(self@, read_keys(self@.timeline, timeline_id, count), r.0@),
            r.1 == high_water_mark(read_keys(self@.timeline, timeline_id, count), timeline_id),
            r.1 >= timeline_id,
    {
        proof {
            lemma_wf_parts(self@);
        }
        let keys = self.timeline_index.read_timeline(timeline_id, count);
        proof {
            assert forall|k: int| 0 <= k < keys@.len() implies self@.has(
                (#[trigger] keys@[k]).pointer(),
            ) by {
                lemma_contains_holds(self@.timeline, keys@[k]);
            }
        }
        let batch = self.collect(&keys);
        let last = if keys.len() > 0 {
            keys[keys.len() - 1].rank
        } else {
            timeline_id
        };
        (batch, last)
    }

    /// The transactions of the timeline with ids above `start_id` and up to
    /// `end_id`, in the order of their ids.
    pub fn timeline_range(&self, start_id: u64, end_id: u64) -> (r: Vec<SignedTransaction>)
        requires
            self.wf(),
        ensures
            batch_matches(self@, range_keys(self@.timeline, start_id, end_id), r@),
    {
        proof {
            lemma_wf_parts(self@);
        }
        let keys = self.timeline_index.timeline_range(start_id, end_id);
        proof {
            assert forall|k: int| 0 <= k < keys@.len() implies self@.has(
                (#[trigger] keys@[k]).pointer(),
            ) by {
                lemma_contains_holds(self@.timeline, keys@[k]);
            }
        }
        self.collect(&keys)
    }

    /// A transaction was committed: the transactions of the account below
    /// its new sequence number leave, and the others are promoted and parked
    /// anew.
    pub fn commit_transaction(
        &mut self,
        account: &AccountAddress,
        account_sequence_number: AccountSequenceInfo,
    )
        requires
            old(self).wf(),
        ensures
            final(self).wf(),
            final(self)@ == processed(
                cleaned(old(self)@, *account, account_sequence_number.spec_min_seq()),
                *account,
                account_sequence_number,
            ),
    {
        self.clean_committed_transactions(*account, account_sequence_number.min_seq());
        self.process_ready_transactions(*account, account_sequence_number);
    }

    /// A transaction was rejected: it leaves the store and every index, and
    /// nothing else changes.
    pub fn reject_transaction(&mut self, account: &AccountAddress, sequence_number: u64)
        requires
            old(self).wf(),
        ensures
            final(self).wf(),
            old(self)@.has((*account, sequence_number)) ==> final(self)@ == old(self)@.dropped(
                txn_position(old(self)@.txns, (*account, sequence_number)),
            ),
            !old(self)@.has((*account, sequence_number)) ==> final(self)@ == old(self)@,
    {
        match self.position(*account, sequence_number) {
            Some(i) => {
                self.drop_at(i);
            },
            None => {},
        }
    }

    /// The keys of the priority index, the first to go into a block first.
    pub fn iter_queue(&self) -> (r: Vec<IndexKey>)
        ensures
            r@ == self@.priority,
    {
        let mut r: Vec<IndexKey> = Vec::new();
        let mut i: usize = 0;
        while i < self.priority_index.size()
            invariant
                i <= self.priority_index.keys@.len(),
                r@ == self.priority_index.keys@.take(i as int),
            decreases self.priority_index.keys@.len() - i,
        {
            r.push(self.priority_index.get(i));
            i += 1;
            assert(r@ =~= self.priority_index.keys@.take(i as int));
        }
        assert(self.priority_index.keys@.take(i as int) =~= self.priority_index.keys@);
        r
    }

    /// Every transaction of the store, by address and sequence number, with
    /// whether it is parked.
    pub fn gen_snapshot(&self) -> (r: Vec<SnapshotEntry>)
        ensures
            r@.len() == self@.txns.len(),
            forall|i: int|
                0 <= i < r@.len() ==> #[trigger] r@[i] == (SnapshotEntry {
                    address: self@.txns[i].pointer().0,
                    sequence_number: self@.txns[i].pointer().1,
                    parked: holds(self@.parking, self@.txns[i].pointer()),
                }),
    {
        let mut r: Vec<SnapshotEntry> = Vec::new();
        let mut i: usize = 0;
        while i < self.transactions.len()
            invariant
                i <= self.transactions.len(),
                r@.len() == i,
                forall|j: int|
                    0 <= j < i ==> #[trigger] r@[j] == (SnapshotEntry {
                        address: self@.txns[j].pointer().0,
                        sequence_number: self@.txns[j].pointer().1,
                        parked: holds(self@.parking, self@.txns[j].pointer()),
                    }),
            decreases self.transactions.len() - i,
        {
            let address = self.transactions[i].txn.raw_txn.sender;
            let sequence_number = self.transactions[i].sequence_info.transaction_sequence_number;
            let parked = self.parking_lot_index.contains(address, sequence_number);
            r.push(SnapshotEntry { address, sequence_number, parked });
            i += 1;
        }
        r
    }

    /// The number of parked transactions.
    pub fn get_parking_lot_size(&self) -> (r: usize)
        ensures
            r == self@.parking.len(),
    {
        self.parking_lot_index.size()
    }

    /// The number of transactions in the store.
    pub fn size(&self) -> (r: usize)
        ensures
            r == self@.txns.len(),
    {
        self.transactions.len()
    }
}

} // verus!
