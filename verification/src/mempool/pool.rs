//! The mempool: admission of transactions, the notifications of commits and
//! rejections, the building of blocks, the reading of the timeline and
//! garbage collection.

use crate::account_address::AccountAddress;
use crate::hash::HashValue;
use crate::mempool::index::{
    distinct, find, hash_lookup, holds, position, range_keys, read_keys, IndexKey, TxnPointer,
};
use crate::mempool::model::{
    batch_matches, cleaned, collected, high_water_mark, inserted, inserted_message,
    lemma_contains_holds,
    lemma_wf_parts, processed, txn_position, StoreView,
};
use crate::mempool::status::{invalid_seq_message, MempoolStatus, MempoolStatusCode};
use crate::mempool::transaction::{
    AccountSequenceInfo, MempoolTransaction, SequenceInfo, TimelineState,
};
use crate::mempool::transaction_store::{MempoolConfig, SnapshotEntry, TransactionStore};
use crate::mempool::ttl_cache::{cache_put, cached, unexpired, CacheEntry, TtlCache};
use crate::transaction::status::GovernanceRole;
use crate::transaction::SignedTransaction;
use vstd::prelude::*;

verus! {

/// The seconds for which the mempool remembers the sequence number of an
/// account.
pub const SEQUENCE_CACHE_TIMEOUT_SECS: u64 = 100;

/// Whether `pointers` holds `pointer`.
pub open spec fn seen_has(pointers: Seq<TxnPointer>, pointer: TxnPointer) -> bool {
    pointers.contains(pointer)
}

/// Whether a transaction of the priority index may go into the block now:
/// the one before it in the sequence of its account was handed out already,
/// or its sequence number is the account's as the mempool remembers it, or
/// the sequence numbers of its account go by a window.
pub open spec fn includable(
    v: StoreView,
    cache: Seq<CacheEntry>,
    seen: Seq<TxnPointer>,
    pointer: TxnPointer,
) -> bool {
    ||| pointer.1 > 0 && seen_has(seen, (pointer.0, (pointer.1 - 1) as u64))
    ||| cached(cache, pointer.0) == Some(pointer.1)
    ||| v.has(pointer) && v.txns[txn_position(
        v.txns,
        pointer,
    )].sequence_info.account_sequence_number_type is CRSN
}

/// What is seen and in the block after the transactions of the account that
/// were skipped, from the sequence number `seq` on without a gap, went into
/// the block behind their predecessor, as far as the block has room.
pub open spec fn drained(
    skipped: Seq<IndexKey>,
    address: AccountAddress,
    seq: int,
    seen: Seq<TxnPointer>,
    block: Seq<IndexKey>,
    batch_size: u64,
) -> (Seq<TxnPointer>, Seq<IndexKey>)
    decreases u64::MAX + 1 - seq,
{
    if 0 <= seq <= u64::MAX && block.len() < batch_size && holds(skipped, (address, seq as u64)) {
        drained(
            skipped,
            address,
            seq + 1,
            seen.push((address, seq as u64)),
            block.push(skipped[position(skipped, (address, seq as u64))]),
            batch_size,
        )
    } else {
        (seen, block)
    }
}

/// The block that is built from the priority index from place `i` on. A
/// transaction that was seen is passed over. One that may go into the block
/// goes into it, and behind it those of its account that were skipped and
/// follow it without a gap. Any other is skipped. The block is done when it
/// holds `batch_size` transactions.
pub open spec fn block_from(
    v: StoreView,
    cache: Seq<CacheEntry>,
    queue: Seq<IndexKey>,
    i: int,
    seen: Seq<TxnPointer>,
    skipped: Seq<IndexKey>,
    block: Seq<IndexKey>,
    batch_size: u64,
) -> Seq<IndexKey>
    decreases queue.len() - i,
{
    if i < 0 || i >= queue.len() || block.len() >= batch_size {
        block
    } else if seen_has(seen, queue[i].pointer()) {
        block_from(v, cache, queue, i + 1, seen, skipped, block, batch_size)
    } else if includable(v, cache, seen, queue[i].pointer()) {
        let next = drained(
            skipped,
            queue[i].address,
            queue[i].sequence_number + 1,
            seen.push(queue[i].pointer()),
            block.push(queue[i]),
            batch_size,
        );
        block_from(v, cache, queue, i + 1, next.0, skipped, next.1, batch_size)
    } else {
        block_from(v, cache, queue, i + 1, seen, skipped.push(queue[i]), block, batch_size)
    }
}

/// The keys of the block that the mempool builds for `batch_size` and what
/// consensus has seen already.
pub open spec fn block_keys(
    v: StoreView,
    cache: Seq<CacheEntry>,
    batch_size: u64,
    seen: Seq<TxnPointer>,
) -> Seq<IndexKey> {
    block_from(v, cache, v.priority, 0, seen, Seq::<IndexKey>::empty(), Seq::<IndexKey>::empty(), batch_size)
}

/// How the sequence numbers of an account go when a transaction is
/// submitted: a window stays as it is given; a sequence goes on from the
/// later of the number that the mempool remembers and the number given.
pub open spec fn effective_info(cache: Seq<CacheEntry>, address: AccountAddress, info: AccountSequenceInfo) -> AccountSequenceInfo {
    match info {
        AccountSequenceInfo::CRSN { min_nonce, size } => info,
        AccountSequenceInfo::Sequential(db) => match cached(cache, address) {
            Some(value) => AccountSequenceInfo::Sequential(
                if value > db {
                    value
                } else {
                    db
                },
            ),
            None => AccountSequenceInfo::Sequential(db),
        },
    }
}

/// The store after a transaction was submitted to it, with the answer and
/// its message.
pub open spec fn submitted(v: StoreView, t: MempoolTransaction) -> (
    StoreView,
    MempoolStatusCode,
    Seq<char>,
) {
    (inserted(v, t).0, inserted(v, t).1, inserted_message(v, t))
}

/// `a + b`, and the largest number where that is too large.
pub open spec fn saturating_sum(a: u64, b: u64) -> u64 {
    if a + b > u64::MAX {
        u64::MAX
    } else {
        (a + b) as u64
    }
}

/// How the sequence numbers of an account go after the transaction with the
/// sequence number `seq` was committed: by the window of that transaction
/// where the store holds it with one, and else one after another from the
/// later of the number that the mempool remembers and the number behind
/// `seq`.
pub open spec fn committed_info(
    v: StoreView,
    cache: Seq<CacheEntry>,
    sender: AccountAddress,
    seq: u64,
) -> AccountSequenceInfo {
    let current = match cached(cache, sender) {
        Some(value) => value,
        None => 0,
    };
    let new_seq = if current > saturating_sum(seq, 1) {
        current
    } else {
        saturating_sum(seq, 1)
    };
    if v.has((sender, seq)) && v.txns[txn_position(
        v.txns,
        (sender, seq),
    )].sequence_info.account_sequence_number_type is CRSN {
        v.txns[txn_position(v.txns, (sender, seq))].sequence_info.account_sequence_number_type
    } else {
        AccountSequenceInfo::Sequential(new_seq)
    }
}

/// The mempool.
pub struct Mempool {
    transactions: TransactionStore,
    sequence_number_cache: TtlCache,
    system_transaction_timeout: u64,
}

impl Mempool {
    /// What the store of the mempool holds.
    pub closed spec fn store(&self) -> StoreView {
        self.transactions@
    }

    /// The sequence numbers of accounts that the mempool remembers.
    pub closed spec fn cache(&self) -> Seq<CacheEntry> {
        self.sequence_number_cache@
    }

    /// The seconds after which the mempool drops a transaction.
    pub closed spec fn timeout(&self) -> u64 {
        self.system_transaction_timeout
    }

    /// The most entries that the cache of sequence numbers holds.
    pub closed spec fn cache_capacity(&self) -> usize {
        self.sequence_number_cache.capacity
    }

    /// The invariant of the mempool: that of its store, and the fixed
    /// timeout of the cache.
    pub closed spec fn wf(&self) -> bool {
        &&& self.transactions.wf()
        &&& self.sequence_number_cache.default_timeout == SEQUENCE_CACHE_TIMEOUT_SECS
    }

    /// An empty mempool with the limits of `config`.
    pub fn new(config: &MempoolConfig) -> (r: Self)
        ensures
            r.wf(),
            r.store().wf(),
            r.store().txns.len() == 0,
            r.store().priority.len() == 0,
            r.store().parking.len() == 0,
            r.store().timeline.len() == 0,
            r.store().next_timeline_id == 1,
            r.store().capacity == config.capacity,
            r.store().capacity_per_user == config.capacity_per_user,
            r.cache().len() == 0,
            r.cache_capacity() == config.capacity,
            r.timeout() == config.system_transaction_timeout_secs,
    {
        Mempool {
            transactions: TransactionStore::new(config),
            sequence_number_cache: TtlCache::new(config.capacity, SEQUENCE_CACHE_TIMEOUT_SECS),
            system_transaction_timeout: config.system_transaction_timeout_secs,
        }
    }

    /// The seconds after which the mempool drops a transaction.
    pub fn system_transaction_timeout(&self) -> (r: u64)
        ensures
            r == self.timeout(),
    {
        self.system_transaction_timeout
    }

    /// A transaction was committed or rejected.
    ///
    /// A rejected transaction leaves the store, unless its sequence number
    /// is below the one that the mempool remembers for the account; what the
    /// mempool remembers stays. For a committed transaction the mempool
    /// remembers the sequence number from which the account goes on; the
    /// transactions of the account below it leave the store, and the others
    /// are promoted and parked anew.
    #[verifier::rlimit(40)]
    pub fn remove_transaction(
        &mut self,
        sender: &AccountAddress,
        sequence_number: u64,
        is_rejected: bool,
        now: u64,
    )
        requires
            old(self).wf(),
        ensures
            final(self).wf(),
            final(self).store().wf(),
            final(self).timeout() == old(self).timeout(),
            final(self).cache_capacity() == old(self).cache_capacity(),
            is_rejected ==> {
                &&& final(self).cache() == old(self).cache()
                &&& final(self).store() == if old(self).store().has((*sender, sequence_number)) && (
                match cached(old(self).cache(), *sender) {
                    Some(current) => sequence_number >= current,
                    None => true,
                }) {
                    old(self).store().dropped(
                        txn_position(old(self).store().txns, (*sender, sequence_number)),
                    )
                } else {
                    old(self).store()
                }
            },
            !is_rejected ==> {
                let info = committed_info(
                    old(self).store(),
                    old(self).cache(),
                    *sender,
                    sequence_number,
                );
                &&& final(self).cache() == cache_put(
                    old(self).cache(),
                    old(self).cache_capacity(),
                    SEQUENCE_CACHE_TIMEOUT_SECS,
                    *sender,
                    info.spec_min_seq(),
                    now,
                )
                &&& final(self).store() == processed(
                    cleaned(old(self).store(), *sender, info.spec_min_seq()),
                    *sender,
                    info,
                )
            },
    {
        let current_seq_number = match self.sequence_number_cache.get(sender) {
            Some(value) => value,
            None => 0,
        };
        if is_rejected {
            if sequence_number >= current_seq_number {
                self.transactions.reject_transaction(sender, sequence_number);
            }
        } else {
            let behind = sequence_number.saturating_add(1);
            let new_seq_number = if current_seq_number > behind {
                current_seq_number
            } else {
                behind
            };
            let info = match self.transactions.get_mempool_txn(sender, sequence_number) {
                Some(mempool_transaction) => {
                    match mempool_transaction.sequence_info.account_sequence_number_type {
                        AccountSequenceInfo::CRSN { min_nonce, size } => AccountSequenceInfo::CRSN {
                            min_nonce,
                            size,
                        },
                        AccountSequenceInfo::Sequential(_) => AccountSequenceInfo::Sequential(
                            new_seq_number,
                        ),
                    }
                },
                None => AccountSequenceInfo::Sequential(new_seq_number),
            };
            self.sequence_number_cache.insert(*sender, info.min_seq(), now);
            self.transactions.commit_transaction(sender, info);
        }
    }

    /// The signed transaction with the committed hash `hash`.
    pub fn get_by_hash(&self, hash: HashValue) -> (r: Option<SignedTransaction>)
        requires
            self.wf(),
        ensures
            r is Some <==> hash_lookup(self.store().hashes, hash@) is Some,
            r is Some ==> r->Some_0@ == self.store().txns[txn_position(
                self.store().txns,
                hash_lookup(self.store().hashes, hash@)->Some_0,
            )].txn@,
    {
        self.transactions.get_by_hash(hash)
    }

    /// Submits a transaction at the time `now`.
    ///
    /// The mempool remembers the sequence number from which the account
    /// goes on. A transaction with a sequence number below it is refused.
    /// Any other is submitted to the store, to be dropped
    /// `system_transaction_timeout` after `now`.
    #[verifier::rlimit(40)]
    pub fn add_txn(
        &mut self,
        txn: SignedTransaction,
        gas_amount: u64,
        ranking_score: u64,
        crsn_or_seqno: AccountSequenceInfo,
        timeline_state: TimelineState,
        governance_role: GovernanceRole,
        now: u64,
    ) -> (r: MempoolStatus)
        requires
            old(self).wf(),
        ensures
            final(self).wf(),
            final(self).store().wf(),
            final(self).timeout() == old(self).timeout(),
            final(self).cache_capacity() == old(self).cache_capacity(),
            final(self).cache() == cache_put(
                old(self).cache(),
                old(self).cache_capacity(),
                SEQUENCE_CACHE_TIMEOUT_SECS,
                txn.raw_txn.sender,
                effective_info(old(self).cache(), txn.raw_txn.sender, crsn_or_seqno).spec_min_seq(),
                now,
            ),
            txn.raw_txn.sequence_number < effective_info(
                old(self).cache(),
                txn.raw_txn.sender,
                crsn_or_seqno,
            ).spec_min_seq() ==> r.code == MempoolStatusCode::InvalidSeqNumber && final(self).store()
                == old(self).store() && r.message@ == invalid_seq_message(
                txn.raw_txn.sequence_number,
                effective_info(old(self).cache(), txn.raw_txn.sender, crsn_or_seqno).spec_min_seq(),
            ),
            txn.raw_txn.sequence_number >= effective_info(
                old(self).cache(),
                txn.raw_txn.sender,
                crsn_or_seqno,
            ).spec_min_seq() ==> (final(self).store(), r.code, r.message@) == submitted(
                old(self).store(),
                MempoolTransaction {
                    txn,
                    expiration_time: saturating_sum(now, old(self).timeout()),
                    gas_amount,
                    ranking_score,
                    timeline_state,
                    governance_role,
                    sequence_info: SequenceInfo {
                        transaction_sequence_number: txn.raw_txn.sequence_number,
                        account_sequence_number_type: effective_info(
                            old(self).cache(),
                            txn.raw_txn.sender,
                            crsn_or_seqno,
                        ),
                    },
                },
            ),
    {
        let db_sequence_number = crsn_or_seqno.min_seq();
        let sender = txn.sender();
        let cached_value = self.sequence_number_cache.get(&sender);
        let sequence_number = match crsn_or_seqno {
            AccountSequenceInfo::CRSN { min_nonce, size } => crsn_or_seqno,
            AccountSequenceInfo::Sequential(_) => match cached_value {
                Some(value) => AccountSequenceInfo::Sequential(
                    if value > db_sequence_number {
                        value
                    } else {
                        db_sequence_number
                    },
                ),
                None => AccountSequenceInfo::Sequential(db_sequence_number),
            },
        };
        self.sequence_number_cache.insert(sender, sequence_number.min_seq(), now);
        if txn.sequence_number() < sequence_number.min_seq() {
            return MempoolStatus::invalid_seq_number(txn.sequence_number(), sequence_number.min_seq());
        }
        let expiration_time = now.saturating_add(self.system_transaction_timeout);
        let txn_info = MempoolTransaction::new(
            txn,
            expiration_time,
            gas_amount,
            ranking_score,
            timeline_state,
            governance_role,
            sequence_number,
        );
        self.transactions.insert(txn_info)
    }

    /// Garbage collection at the time `now`: the transactions that the
    /// mempool keeps no longer leave the store, and the sequence numbers
    /// that it remembers no longer leave the cache.
    pub fn gc(&mut self, now: u64)
        requires
            old(self).wf(),
        ensures
            final(self).wf(),
            final(self).store().wf(),
            final(self).store() == collected(old(self).store(), now, true),
            final(self).cache() == unexpired(old(self).cache(), now),
            final(self).timeout() == old(self).timeout(),
            final(self).cache_capacity() == old(self).cache_capacity(),
    {
        self.transactions.gc_by_system_ttl(now);
        self.sequence_number_cache.gc(now);
    }

    /// Garbage collection by the time of a block: the transactions that
    /// their clients let expire at that time or earlier leave the store.
    pub fn gc_by_expiration_time(&mut self, block_time: u64)
        requires
            old(self).wf(),
        ensures
            final(self).wf(),
            final(self).store().wf(),
            final(self).store() == collected(old(self).store(), block_time, false),
            final(self).cache() == old(self).cache(),
            final(self).timeout() == old(self).timeout(),
            final(self).cache_capacity() == old(self).cache_capacity(),
    {
        self.transactions.gc_by_expiration_time(block_time);
    }

    /// Reads up to `count` transactions from the timeline, those with ids
    /// above `timeline_id` in the order of their ids, and returns them with
    /// the id that the batch reaches up to.
    pub fn read_timeline(&self, timeline_id: u64, count: usize) -> (r: (Vec<SignedTransaction>, u64))
        requires
            self.wf(),
        ensures
            batch_matches(self.store(), read_keys(self.store().timeline, timeline_id, count), r.0@),
            r.1 == high_water_mark(read_keys(self.store().timeline, timeline_id, count), timeline_id),
            r.1 >= timeline_id,
    {
        self.transactions.read_timeline(timeline_id, count)
    }

    /// The transactions of the timeline with ids above `start_id` and up to
    /// `end_id`, in the order of their ids.
    pub fn timeline_range(&self, start_id: u64, end_id: u64) -> (r: Vec<SignedTransaction>)
        requires
            self.wf(),
        ensures
            batch_matches(self.store(), range_keys(self.store().timeline, start_id, end_id), r@),
    {
        self.transactions.timeline_range(start_id, end_id)
    }

    /// Every transaction of the mempool, by address and sequence number,
    /// with whether it is parked.
    pub fn gen_snapshot(&self) -> (r: Vec<SnapshotEntry>)
        ensures
            r@.len() == self.store().txns.len(),
            forall|i: int|
                0 <= i < r@.len() ==> #[trigger] r@[i] == (SnapshotEntry {
                    address: self.store().txns[i].pointer().0,
                    sequence_number: self.store().txns[i].pointer().1,
                    parked: holds(self.store().parking, self.store().txns[i].pointer()),
                }),
    {
        self.transactions.gen_snapshot()
    }

    /// The number of parked transactions.
    pub fn get_parking_lot_size(&self) -> (r: usize)
        ensures
            r == self.store().parking.len(),
    {
        self.transactions.get_parking_lot_size()
    }
}

/// Whether the list holds the pointer.
fn pointer_in(pointers: &Vec<TxnPointer>, address: AccountAddress, sequence_number: u64) -> (r: bool)
    ensures
        r == seen_has(pointers@, (address, sequence_number)),
{
    let mut i: usize = 0;
    while i < pointers.len()
        invariant
            i <= pointers.len(),
            forall|j: int| 0 <= j < i ==> pointers@[j] != (address, sequence_number),
        decreases pointers.len() - i,
    {
        if pointers[i].0 == address && pointers[i].1 == sequence_number {
            assert(pointers@[i as int] == (address, sequence_number));
            return true;
        }
        i += 1;
    }
    false
}

impl Mempool {
    /// Whether a transaction of the priority index may go into the block
    /// now.
    fn can_include(&self, seen: &Vec<TxnPointer>, address: AccountAddress, sequence_number: u64) -> (r:
        bool)
        requires
            self.wf(),
        ensures
            r == includable(self.store(), self.cache(), seen@, (address, sequence_number)),
    {
        if sequence_number > 0 && pointer_in(seen, address, sequence_number - 1) {
            return true;
        }
        match self.sequence_number_cache.get(&address) {
            Some(value) => {
                if value == sequence_number {
                    return true;
                }
            },
            None => {},
        }
        match self.transactions.sequence_type(&address, sequence_number) {
            Some(AccountSequenceInfo::CRSN { min_nonce: _, size: _ }) => true,
            _ => false,
        }
    }

    /// Builds the next block for consensus: up to `batch_size` transactions
    /// in the order of priority, without those that consensus has seen
    /// already, and each one behind the one before it in the sequence of
    /// its account.
    #[verifier::rlimit(40)]
    pub fn get_block(&self, batch_size: u64, seen: Vec<TxnPointer>) -> (r: Vec<SignedTransaction>)
        requires
            self.wf(),
        ensures
            batch_matches(
                self.store(),
                block_keys(self.store(), self.cache(), batch_size, seen@),
                r@,
            ),
    {
        let ghost v = self.store();
        let ghost cache = self.cache();
        proof {
            lemma_wf_parts(v);
        }
        let queue = self.transactions.iter_queue();
        let ghost seen_at_entry = seen@;
        let mut seen = seen;
        let mut skipped: Vec<IndexKey> = Vec::new();
        let mut block: Vec<IndexKey> = Vec::new();
        let mut i: usize = 0;
        while i < queue.len() && (block.len() as u64) < batch_size
            invariant
                i <= queue.len(),
                self.wf(),
                v == self.store(),
                cache == self.cache(),
                queue@ == v.priority,
                distinct(queue@),
                block_from(v, cache, queue@, i as int, seen@, skipped@, block@, batch_size)
                    == block_keys(v, cache, batch_size, seen_at_entry),
                distinct(skipped@),
                forall|k: int|
                    0 <= k < skipped@.len() ==> exists|j: int|
                        0 <= j < i && queue@[j] == #[trigger] skipped@[k],
                forall|k: int| 0 <= k < block@.len() ==> queue@.contains(#[trigger] block@[k]),
            decreases queue.len() - i,
        {
            let key = queue[i];
            if pointer_in(&seen, key.address, key.sequence_number) {
            } else if self.can_include(&seen, key.address, key.sequence_number) {
                seen.push((key.address, key.sequence_number));
                block.push(key);
                assert(queue@[i as int] == key);
                let ghost seen0 = seen@;
                let ghost block0 = block@;
                let mut n: u128 = key.sequence_number as u128 + 1;
                while n <= 0xffff_ffff_ffff_ffff && (block.len() as u64) < batch_size && find(
                    &skipped,
                    key.address,
                    n as u64,
                ).is_some()
                    invariant
                        key.sequence_number < n <= u64::MAX + 1,
                        i < queue@.len(),
                        distinct(skipped@),
                        drained(skipped@, key.address, n as int, seen@, block@, batch_size)
                            == drained(
                            skipped@,
                            key.address,
                            key.sequence_number + 1,
                            seen0,
                            block0,
                            batch_size,
                        ),
                        forall|k: int|
                            0 <= k < skipped@.len() ==> exists|j: int|
                                0 <= j < i && queue@[j] == #[trigger] skipped@[k],
                        forall|k: int| 0 <= k < block@.len() ==> queue@.contains(#[trigger] block@[k]),
                    decreases u64::MAX + 1 - n,
                {
                    match find(&skipped, key.address, n as u64) {
                        Some(at) => {
                            seen.push((key.address, n as u64));
                            block.push(skipped[at]);
                            proof {
                                let j = choose|j: int| 0 <= j < i && queue@[j] == skipped@[at as int];
                                assert(queue@[j] == skipped@[at as int]);
                            }
                        },
                        None => {},
                    }
                    n += 1;
                }
            } else {
                proof {
                    if holds(skipped@, key.pointer()) {
                        let k = choose|k: int|
                            0 <= k < skipped@.len() && (#[trigger] skipped@[k]).pointer()
                                == key.pointer();
                        let j = choose|j: int| 0 <= j < i && queue@[j] == skipped@[k];
                        assert(queue@[j].pointer() == queue@[i as int].pointer());
                    }
                    crate::mempool::index::lemma_insert_distinct(
                        skipped@,
                        skipped@.len() as int,
                        key,
                    );
                    assert(skipped@.push(key) =~= skipped@.insert(skipped@.len() as int, key));
                }
                skipped.push(key);
                assert(queue@[i as int] == key);
            }
            i += 1;
        }
        proof {
            assert forall|k: int| 0 <= k < block@.len() implies v.has(
                (#[trigger] block@[k]).pointer(),
            ) by {
                lemma_contains_holds(v.priority, block@[k]);
            }
        }
        self.transactions.collect(&block)
    }
}

} // verus!
