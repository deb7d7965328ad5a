//! The transaction store as plain values, and the four steps that every
//! change of the store is made of: a transaction enters, leaves, is promoted
//! or is parked.

use crate::mempool::index::{
    distinct, hash_distinct, hash_holds, hash_with, hash_without, holds, lemma_hash_with,
    lemma_hash_without, lemma_with_ranked, lemma_without, ordered, with_ranked, without, HashPairs,
    IndexKey, TxnPointer,
};
use crate::account_address::AccountAddress;
use crate::mempool::index::split_point;
use crate::mempool::status::{
    full_message, invalid_update_message, too_many_message, MempoolStatusCode,
};
use crate::transaction::SignedTransaction;
use crate::mempool::transaction::{AccountSequenceInfo, MempoolTransaction, TimelineState};
use vstd::prelude::*;

verus! {

/// What a transaction store holds.
pub struct StoreView {
    /// The transactions, by address and then by sequence number.
    pub txns: Seq<MempoolTransaction>,
    /// The priority index, the highest ranking score first.
    pub priority: Seq<IndexKey>,
    /// The index by the time at which the client lets a transaction expire.
    pub expiration: Seq<IndexKey>,
    /// The index by the time at which the mempool drops a transaction.
    pub system_ttl: Seq<IndexKey>,
    /// The timeline, the lowest id first.
    pub timeline: Seq<IndexKey>,
    /// The id that the next transaction on the timeline gets.
    pub next_timeline_id: u64,
    /// The parking lot, in the order of parking.
    pub parking: Seq<IndexKey>,
    /// The hash index.
    pub hashes: HashPairs,
    /// The most transactions that the store holds.
    pub capacity: usize,
    /// The most transactions that the store holds of one account.
    pub capacity_per_user: usize,
}

/// The order of pointers: by address, and then by sequence number.
pub open spec fn pointer_lt(a: TxnPointer, b: TxnPointer) -> bool {
    a.0.value < b.0.value || (a.0.value == b.0.value && a.1 < b.1)
}

/// Whether the transactions stand in the order of their pointers, each
/// pointer once.
pub open spec fn sorted(txns: Seq<MempoolTransaction>) -> bool {
    forall|i: int, j: int|
        0 <= i < j < txns.len() ==> pointer_lt(
            (#[trigger] txns[i]).pointer(),
            (#[trigger] txns[j]).pointer(),
        )
}

/// Whether a transaction with the pointer is among `txns`.
pub open spec fn has_txn(txns: Seq<MempoolTransaction>, pointer: TxnPointer) -> bool {
    exists|i: int| 0 <= i < txns.len() && (#[trigger] txns[i]).pointer() == pointer
}

/// The place of the transaction with the pointer, where there is one.
pub open spec fn txn_position(txns: Seq<MempoolTransaction>, pointer: TxnPointer) -> int {
    choose|i: int| 0 <= i < txns.len() && (#[trigger] txns[i]).pointer() == pointer
}

/// Whether the first `n` transactions, and no others, come before `pointer`.
pub open spec fn is_place(txns: Seq<MempoolTransaction>, n: int, pointer: TxnPointer) -> bool {
    &&& 0 <= n <= txns.len()
    &&& forall|i: int| 0 <= i < n ==> pointer_lt((#[trigger] txns[i]).pointer(), pointer)
    &&& forall|i: int| n <= i < txns.len() ==> !pointer_lt((#[trigger] txns[i]).pointer(), pointer)
}

/// The number of transactions that come before `pointer`.
pub open spec fn place(txns: Seq<MempoolTransaction>, pointer: TxnPointer) -> int {
    choose|n: int| is_place(txns, n, pointer)
}

/// The key of a transaction in the index of system expiry.
pub open spec fn system_key(t: MempoolTransaction) -> IndexKey {
    IndexKey { rank: t.expiration_time, address: t.pointer().0, sequence_number: t.pointer().1 }
}

/// The key of a transaction in the index of client expiry.
pub open spec fn client_key(t: MempoolTransaction) -> IndexKey {
    IndexKey {
        rank: t.txn.raw_txn.expiration_timestamp_secs,
        address: t.pointer().0,
        sequence_number: t.pointer().1,
    }
}

/// The key of a transaction in the priority index.
pub open spec fn priority_key(t: MempoolTransaction) -> IndexKey {
    IndexKey { rank: t.ranking_score, address: t.pointer().0, sequence_number: t.pointer().1 }
}

/// The key of a transaction in the parking lot.
pub open spec fn parking_key(t: MempoolTransaction) -> IndexKey {
    IndexKey { rank: 0, address: t.pointer().0, sequence_number: t.pointer().1 }
}

/// Whether a timeline is in order: no transaction twice, the ids rising and
/// distinct, and each of them handed out by the counter before.
pub open spec fn timeline_wf(keys: Seq<IndexKey>, next_id: u64) -> bool {
    &&& distinct(keys)
    &&& ordered(keys, false)
    &&& next_id >= 1
    &&& forall|i: int| 0 <= i < keys.len() ==> 1 <= (#[trigger] keys[i]).rank < next_id
    &&& forall|i: int, j: int|
        0 <= i < j < keys.len() ==> (#[trigger] keys[i]).rank != (#[trigger] keys[j]).rank
}

/// The number of transactions of the account.
pub open spec fn count_for(txns: Seq<MempoolTransaction>, address: AccountAddress) -> nat
    decreases txns.len(),
{
    if txns.len() == 0 {
        0
    } else {
        count_for(txns.drop_last(), address) + if txns.last().pointer().0 == address {
            1nat
        } else {
            0nat
        }
    }
}

impl StoreView {
    /// Whether the store holds a transaction with the pointer.
    pub open spec fn has(self, pointer: TxnPointer) -> bool {
        has_txn(self.txns, pointer)
    }

    /// Each index is in order by itself.
    pub open spec fn indices_wf(self) -> bool {
        &&& distinct(self.priority)
        &&& ordered(self.priority, true)
        &&& distinct(self.expiration)
        &&& ordered(self.expiration, false)
        &&& distinct(self.system_ttl)
        &&& ordered(self.system_ttl, false)
        &&& timeline_wf(self.timeline, self.next_timeline_id)
        &&& distinct(self.parking)
        &&& hash_distinct(self.hashes)
    }

    /// Every index points at transactions of the store only.
    pub open spec fn covered(self) -> bool {
        &&& forall|q: TxnPointer| #[trigger] holds(self.priority, q) ==> self.has(q)
        &&& forall|q: TxnPointer| #[trigger] holds(self.expiration, q) ==> self.has(q)
        &&& forall|q: TxnPointer| #[trigger] holds(self.system_ttl, q) ==> self.has(q)
        &&& forall|q: TxnPointer| #[trigger] holds(self.timeline, q) ==> self.has(q)
        &&& forall|q: TxnPointer| #[trigger] holds(self.parking, q) ==> self.has(q)
        &&& forall|q: TxnPointer| #[trigger] hash_holds(self.hashes, q) ==> self.has(q)
    }

    /// Every transaction of the store is in both indices of expiry, under
    /// its own times, and in the hash index, under its own hash.
    pub open spec fn indexed(self) -> bool {
        forall|i: int|
            0 <= i < self.txns.len() ==> {
                &&& self.system_ttl.contains(system_key(#[trigger] self.txns[i]))
                &&& self.expiration.contains(client_key(self.txns[i]))
                &&& self.hashes.contains(
                    (self.txns[i].txn.spec_committed_hash(), self.txns[i].pointer()),
                )
            }
    }

    /// No parked transaction is in the priority index or on the timeline.
    pub open spec fn separated(self) -> bool {
        forall|q: TxnPointer|
            #[trigger] holds(self.parking, q) ==> !holds(self.priority, q) && !holds(
                self.timeline,
                q,
            )
    }

    /// Every transaction on the timeline is ready under the id that it has
    /// there.
    pub open spec fn timed(self) -> bool {
        forall|i: int, k: int|
            0 <= i < self.txns.len() && 0 <= k < self.timeline.len() && (
            #[trigger] self.timeline[k]).pointer() == (#[trigger] self.txns[i]).pointer()
                ==> self.txns[i].timeline_state == TimelineState::Ready(self.timeline[k].rank)
    }

    /// No account has more transactions in the store than one account may
    /// have.
    pub open spec fn bounded(self) -> bool {
        forall|address: AccountAddress|
            #[trigger] count_for(self.txns, address) <= self.capacity_per_user
    }

    /// The invariant of the store.
    #[verifier::opaque]
    pub open spec fn wf(self) -> bool {
        &&& sorted(self.txns)
        &&& self.indices_wf()
        &&& self.covered()
        &&& self.indexed()
        &&& self.separated()
        &&& self.timed()
        &&& self.bounded()
        &&& self.txns.len() <= self.capacity
    }

    /// The store after the transaction at place `i` left it and every
    /// index.
    pub open spec fn dropped(self, i: int) -> StoreView {
        let pointer = self.txns[i].pointer();
        StoreView {
            txns: self.txns.remove(i),
            priority: without(self.priority, pointer),
            expiration: without(self.expiration, pointer),
            system_ttl: without(self.system_ttl, pointer),
            timeline: without(self.timeline, pointer),
            parking: without(self.parking, pointer),
            hashes: hash_without(self.hashes, pointer),
            ..self
        }
    }

    /// The store after `t` entered it: it stands at its place among the
    /// transactions, in both indices of expiry and in the hash index.
    pub open spec fn entered(self, t: MempoolTransaction) -> StoreView {
        StoreView {
            txns: self.txns.insert(place(self.txns, t.pointer()), t),
            expiration: with_ranked(self.expiration, client_key(t), false),
            system_ttl: with_ranked(self.system_ttl, system_key(t), false),
            hashes: hash_with(self.hashes, t.txn.spec_committed_hash(), t.pointer()),
            ..self
        }
    }

    /// Whether the transaction at place `i` enters the timeline when it is
    /// promoted: it was never ready before, and the counter has an id left.
    pub open spec fn enters_timeline(self, i: int) -> bool {
        &&& self.txns[i].timeline_state is NotReady
        &&& !holds(self.timeline, self.txns[i].pointer())
        &&& self.next_timeline_id < u64::MAX
    }

    /// The store after the transaction at place `i` was promoted: it is in
    /// the priority index and not parked; where it was never ready before,
    /// it enters the timeline under the next id and is ready under that id.
    pub open spec fn promoted(self, i: int) -> StoreView {
        let t = self.txns[i];
        let enters = self.enters_timeline(i);
        StoreView {
            txns: if enters {
                self.txns.update(
                    i,
                    MempoolTransaction {
                        timeline_state: TimelineState::Ready(self.next_timeline_id),
                        ..t
                    },
                )
            } else {
                self.txns
            },
            priority: with_ranked(self.priority, priority_key(t), true),
            timeline: if enters {
                self.timeline.push(
                    IndexKey {
                        rank: self.next_timeline_id,
                        address: t.pointer().0,
                        sequence_number: t.pointer().1,
                    },
                )
            } else {
                self.timeline
            },
            next_timeline_id: if enters {
                (self.next_timeline_id + 1) as u64
            } else {
                self.next_timeline_id
            },
            parking: without(self.parking, t.pointer()),
            ..self
        }
    }

    /// The store after the transaction at place `i` was parked: it is in the
    /// parking lot, and neither in the priority index nor on the timeline.
    pub open spec fn parked(self, i: int) -> StoreView {
        let t = self.txns[i];
        StoreView {
            priority: without(self.priority, t.pointer()),
            timeline: without(self.timeline, t.pointer()),
            parking: if holds(self.parking, t.pointer()) {
                self.parking
            } else {
                self.parking.push(parking_key(t))
            },
            ..self
        }
    }
}

/// Whether two lists of transactions have the same signed transactions,
/// under the same pointers, at the same places.
pub open spec fn same_pointers(a: Seq<MempoolTransaction>, b: Seq<MempoolTransaction>) -> bool {
    &&& a.len() == b.len()
    &&& forall|j: int|
        0 <= j < a.len() ==> (#[trigger] a[j]).pointer() == b[j].pointer() && a[j].txn == b[j].txn
}

/// What the invariant of the store says.
pub proof fn lemma_wf_parts(v: StoreView)
    requires
        v.wf(),
    ensures
        sorted(v.txns),
        v.indices_wf(),
        v.covered(),
        v.indexed(),
        v.separated(),
        v.timed(),
        v.bounded(),
        v.txns.len() <= v.capacity,
{
    reveal(StoreView::wf);
}

/// Taking a transaction out takes one off the number of its account and
/// leaves the numbers of the other accounts.
pub proof fn lemma_count_remove(txns: Seq<MempoolTransaction>, i: int, address: AccountAddress)
    requires
        0 <= i < txns.len(),
    ensures
        count_for(txns, address) == count_for(txns.remove(i), address) + if txns[i].pointer().0
            == address {
            1nat
        } else {
            0nat
        },
    decreases txns.len(),
{
    if i == txns.len() - 1 {
        assert(txns.remove(i) =~= txns.drop_last());
    } else {
        lemma_count_remove(txns.drop_last(), i, address);
        assert(txns.remove(i).drop_last() =~= txns.drop_last().remove(i));
        assert(txns.remove(i).last() == txns.last());
    }
}

/// Putting a transaction in adds one to the number of its account and
/// leaves the numbers of the other accounts.
pub proof fn lemma_count_insert(
    txns: Seq<MempoolTransaction>,
    i: int,
    t: MempoolTransaction,
    address: AccountAddress,
)
    requires
        0 <= i <= txns.len(),
    ensures
        count_for(txns.insert(i, t), address) == count_for(txns, address) + if t.pointer().0
            == address {
            1nat
        } else {
            0nat
        },
{
    lemma_count_remove(txns.insert(i, t), i, address);
    assert(txns.insert(i, t).remove(i) =~= txns);
}

/// Lists with the same pointers at the same places have the same number of
/// transactions of each account.
pub proof fn lemma_count_same(
    a: Seq<MempoolTransaction>,
    b: Seq<MempoolTransaction>,
    address: AccountAddress,
)
    requires
        same_pointers(a, b),
    ensures
        count_for(a, address) == count_for(b, address),
    decreases a.len(),
{
    if a.len() > 0 {
        assert(same_pointers(a.drop_last(), b.drop_last())) by {
            assert forall|j: int| 0 <= j < a.drop_last().len() implies (
            #[trigger] a.drop_last()[j]).pointer() == b.drop_last()[j].pointer()
                && a.drop_last()[j].txn == b.drop_last()[j].txn by {
                assert(a[j].pointer() == b[j].pointer());
            }
        }
        lemma_count_same(a.drop_last(), b.drop_last(), address);
        assert(a.last().pointer() == b.last().pointer()) by {
            assert(a[a.len() - 1].pointer() == b[a.len() - 1].pointer());
        }
    }
}

/// Sorted transactions hold each pointer once.
pub proof fn lemma_sorted_distinct(txns: Seq<MempoolTransaction>, i: int, j: int)
    requires
        sorted(txns),
        0 <= i < txns.len(),
        0 <= j < txns.len(),
        txns[i].pointer() == txns[j].pointer(),
    ensures
        i == j,
{
    if i < j {
        assert(pointer_lt(txns[i].pointer(), txns[j].pointer()));
    } else if j < i {
        assert(pointer_lt(txns[j].pointer(), txns[i].pointer()));
    }
}

/// Taking a transaction out leaves the others, in order.
pub proof fn lemma_txns_remove(txns: Seq<MempoolTransaction>, i: int)
    requires
        sorted(txns),
        0 <= i < txns.len(),
    ensures
        sorted(txns.remove(i)),
        !has_txn(txns.remove(i), txns[i].pointer()),
        forall|q: TxnPointer|
            q != txns[i].pointer() ==> (has_txn(txns.remove(i), q) <==> has_txn(txns, q)),
{
    let r = txns.remove(i);
    assert forall|a: int, b: int| 0 <= a < b < r.len() implies pointer_lt(
        (#[trigger] r[a]).pointer(),
        (#[trigger] r[b]).pointer(),
    ) by {
        let a2 = if a < i {
            a
        } else {
            a + 1
        };
        let b2 = if b < i {
            b
        } else {
            b + 1
        };
        assert(r[a] == txns[a2] && r[b] == txns[b2]);
    }
    if has_txn(r, txns[i].pointer()) {
        let a = choose|a: int| 0 <= a < r.len() && (#[trigger] r[a]).pointer() == txns[i].pointer();
        let a2 = if a < i {
            a
        } else {
            a + 1
        };
        assert(r[a] == txns[a2]);
        lemma_sorted_distinct(txns, a2, i);
    }
    assert forall|q: TxnPointer| q != txns[i].pointer() implies (has_txn(r, q) <==> has_txn(
        txns,
        q,
    )) by {
        if has_txn(r, q) {
            let a = choose|a: int| 0 <= a < r.len() && (#[trigger] r[a]).pointer() == q;
            let a2 = if a < i {
                a
            } else {
                a + 1
            };
            assert(txns[a2].pointer() == q);
        }
        if has_txn(txns, q) {
            let a = choose|a: int| 0 <= a < txns.len() && (#[trigger] txns[a]).pointer() == q;
            let a2 = if a < i {
                a
            } else {
                a - 1
            };
            assert(r[a2].pointer() == q);
        }
    }
}

/// Putting a transaction in at its place leaves the others, in order.
pub proof fn lemma_txns_insert(txns: Seq<MempoolTransaction>, n: int, t: MempoolTransaction)
    requires
        sorted(txns),
        !has_txn(txns, t.pointer()),
        is_place(txns, n, t.pointer()),
    ensures
        sorted(txns.insert(n, t)),
        forall|q: TxnPointer| has_txn(txns.insert(n, t), q) <==> (has_txn(txns, q) || q == t.pointer()),
{
    let r = txns.insert(n, t);
    assert forall|a: int, b: int| 0 <= a < b < r.len() implies pointer_lt(
        (#[trigger] r[a]).pointer(),
        (#[trigger] r[b]).pointer(),
    ) by {
        let a2 = if a < n {
            a
        } else {
            a - 1
        };
        let b2 = if b < n {
            b
        } else {
            b - 1
        };
        if a == n {
            assert(r[b] == txns[b2]);
            assert(!pointer_lt(txns[b2].pointer(), t.pointer()));
            assert(txns[b2].pointer() != t.pointer());
        } else if b == n {
            assert(r[a] == txns[a2]);
        } else {
            assert(r[a] == txns[a2] && r[b] == txns[b2]);
        }
    }
    assert forall|q: TxnPointer| has_txn(r, q) <==> (has_txn(txns, q) || q == t.pointer()) by {
        if has_txn(r, q) && q != t.pointer() {
            let a = choose|a: int| 0 <= a < r.len() && (#[trigger] r[a]).pointer() == q;
            let a2 = if a < n {
                a
            } else {
                a - 1
            };
            assert(txns[a2].pointer() == q);
        }
        if has_txn(txns, q) {
            let a = choose|a: int| 0 <= a < txns.len() && (#[trigger] txns[a]).pointer() == q;
            let a2 = if a < n {
                a
            } else {
                a + 1
            };
            assert(r[a2].pointer() == q);
        }
        if q == t.pointer() {
            assert(r[n].pointer() == q);
        }
    }
}

/// There is one place only.
pub proof fn lemma_place_unique(txns: Seq<MempoolTransaction>, n: int, pointer: TxnPointer)
    requires
        is_place(txns, n, pointer),
    ensures
        place(txns, pointer) == n,
{
    let m = place(txns, pointer);
    if m < n {
        assert(pointer_lt(txns[m].pointer(), pointer));
    } else if n < m {
        assert(pointer_lt(txns[n].pointer(), pointer));
    }
}

/// A store in order stays in order when a transaction leaves it.
#[verifier::rlimit(40)]
pub proof fn lemma_dropped_wf(v: StoreView, i: int)
    requires
        v.wf(),
        0 <= i < v.txns.len(),
    ensures
        v.dropped(i).wf(),
        forall|q: TxnPointer| v.dropped(i).has(q) <==> (v.has(q) && q != v.txns[i].pointer()),
        v.dropped(i).txns == v.txns.remove(i),
        v.dropped(i).capacity == v.capacity,
        v.dropped(i).capacity_per_user == v.capacity_per_user,
        v.dropped(i).next_timeline_id == v.next_timeline_id,
{
    reveal(StoreView::wf);
    let d = v.dropped(i);
    let pointer = v.txns[i].pointer();
    lemma_txns_remove(v.txns, i);
    lemma_without(v.priority, pointer, true);
    lemma_without(v.expiration, pointer, false);
    lemma_without(v.system_ttl, pointer, false);
    lemma_without(v.timeline, pointer, false);
    lemma_without(v.parking, pointer, false);
    lemma_hash_without(v.hashes, pointer);
    assert(v.has(pointer)) by {
        assert(v.txns[i].pointer() == pointer);
    }
    assert(timeline_wf(d.timeline, d.next_timeline_id)) by {
        lemma_timeline_without(v.timeline, v.next_timeline_id, pointer);
    }
    assert(d.indices_wf());
    assert(d.covered()) by {
        assert forall|q: TxnPointer| #[trigger] holds(d.priority, q) implies d.has(q) by {
            assert(holds(v.priority, q));
        }
        assert forall|q: TxnPointer| #[trigger] holds(d.expiration, q) implies d.has(q) by {
            assert(holds(v.expiration, q));
        }
        assert forall|q: TxnPointer| #[trigger] holds(d.system_ttl, q) implies d.has(q) by {
            assert(holds(v.system_ttl, q));
        }
        assert forall|q: TxnPointer| #[trigger] holds(d.timeline, q) implies d.has(q) by {
            assert(holds(v.timeline, q));
        }
        assert forall|q: TxnPointer| #[trigger] holds(d.parking, q) implies d.has(q) by {
            assert(holds(v.parking, q));
        }
        assert forall|q: TxnPointer| #[trigger] hash_holds(d.hashes, q) implies d.has(q) by {
            assert(hash_holds(v.hashes, q));
        }
    }
    assert(d.indexed()) by {
        assert forall|j: int| 0 <= j < d.txns.len() implies {
            &&& d.system_ttl.contains(system_key(#[trigger] d.txns[j]))
            &&& d.expiration.contains(client_key(d.txns[j]))
            &&& d.hashes.contains((d.txns[j].txn.spec_committed_hash(), d.txns[j].pointer()))
        } by {
            let j2 = if j < i {
                j
            } else {
                j + 1
            };
            assert(d.txns[j] == v.txns[j2]);
            if v.txns[j2].pointer() == pointer {
                lemma_sorted_distinct(v.txns, j2, i);
            }
            assert(system_key(v.txns[j2]).pointer() != pointer);
            assert(client_key(v.txns[j2]).pointer() != pointer);
        }
    }
    assert(d.separated()) by {
        assert forall|q: TxnPointer| #[trigger] holds(d.parking, q) implies !holds(d.priority, q)
            && !holds(d.timeline, q) by {
            assert(holds(v.parking, q));
        }
    }
    lemma_dropped_timed(v, i);
    assert(d.bounded()) by {
        assert forall|address: AccountAddress| #[trigger]
            count_for(d.txns, address) <= d.capacity_per_user by {
            lemma_count_remove(v.txns, i, address);
            assert(count_for(v.txns, address) <= v.capacity_per_user);
        }
    }
}

/// The timeline stays in step with the states of the transactions when a
/// transaction leaves the store.
pub proof fn lemma_dropped_timed(v: StoreView, i: int)
    requires
        v.timed(),
        0 <= i < v.txns.len(),
    ensures
        v.dropped(i).timed(),
{
    let d = v.dropped(i);
    let pointer = v.txns[i].pointer();
    assert forall|j: int, k: int|
        0 <= j < d.txns.len() && 0 <= k < d.timeline.len() && (#[trigger] d.timeline[k]).pointer() == (
        #[trigger] d.txns[j]).pointer() implies d.txns[j].timeline_state == TimelineState::Ready(
        d.timeline[k].rank,
    ) by {
        let j2 = if j < i {
            j
        } else {
            j + 1
        };
        assert(d.txns[j] == v.txns[j2]);
        lemma_without_index(v.timeline, pointer, k);
        let k2 = choose|k2: int| 0 <= k2 < v.timeline.len() && v.timeline[k2] == d.timeline[k];
        assert(v.timeline[k2].pointer() == v.txns[j2].pointer());
    }
}

/// Each key of `without` is a key of what it was made from.
pub proof fn lemma_without_index(keys: Seq<IndexKey>, pointer: TxnPointer, k: int)
    requires
        0 <= k < without(keys, pointer).len(),
    ensures
        exists|k2: int| 0 <= k2 < keys.len() && keys[k2] == without(keys, pointer)[k],
{
    if holds(keys, pointer) {
        let p = crate::mempool::index::position(keys, pointer);
        let k2 = if k < p {
            k
        } else {
            k + 1
        };
        assert(keys[k2] == without(keys, pointer)[k]);
    } else {
        assert(keys[k] == without(keys, pointer)[k]);
    }
}

/// A timeline in order stays in order when a transaction leaves it.
pub proof fn lemma_timeline_without(keys: Seq<IndexKey>, next_id: u64, pointer: TxnPointer)
    requires
        timeline_wf(keys, next_id),
    ensures
        timeline_wf(without(keys, pointer), next_id),
{
    lemma_without(keys, pointer, false);
    if holds(keys, pointer) {
        let p = crate::mempool::index::position(keys, pointer);
        let r = keys.remove(p);
        assert forall|i: int| 0 <= i < r.len() implies 1 <= (#[trigger] r[i]).rank < next_id by {
            let i2 = if i < p {
                i
            } else {
                i + 1
            };
            assert(r[i] == keys[i2]);
        }
        assert forall|i: int, j: int| 0 <= i < j < r.len() implies (#[trigger] r[i]).rank != (
        #[trigger] r[j]).rank by {
            let i2 = if i < p {
                i
            } else {
                i + 1
            };
            let j2 = if j < p {
                j
            } else {
                j + 1
            };
            assert(r[i] == keys[i2] && r[j] == keys[j2]);
        }
    }
}

/// A timeline in order stays in order when a transaction enters it at the
/// end under the next id.
pub proof fn lemma_timeline_push(keys: Seq<IndexKey>, next_id: u64, pointer: TxnPointer)
    requires
        timeline_wf(keys, next_id),
        !holds(keys, pointer),
        next_id < u64::MAX,
    ensures
        timeline_wf(
            keys.push(IndexKey { rank: next_id, address: pointer.0, sequence_number: pointer.1 }),
            (next_id + 1) as u64,
        ),
        forall|q: TxnPointer|
            holds(
                keys.push(IndexKey { rank: next_id, address: pointer.0, sequence_number: pointer.1 }),
                q,
            ) <==> (holds(keys, q) || q == pointer),
{
    let key = IndexKey { rank: next_id, address: pointer.0, sequence_number: pointer.1 };
    let r = keys.push(key);
    assert(r =~= keys.insert(keys.len() as int, key));
    crate::mempool::index::lemma_insert_distinct(keys, keys.len() as int, key);
    assert forall|q: TxnPointer| holds(r, q) <==> (holds(keys, q) || q == pointer) by {
        crate::mempool::index::lemma_insert_holds(keys, keys.len() as int, key, q);
    }
    assert forall|i: int, j: int| 0 <= i < j < r.len() implies crate::mempool::index::goes_before(
        (#[trigger] r[i]).rank,
        (#[trigger] r[j]).rank,
        false,
    ) by {
        if j == keys.len() {
            assert(r[i] == keys[i]);
        } else {
            assert(r[i] == keys[i] && r[j] == keys[j]);
        }
    }
    assert forall|i: int| 0 <= i < r.len() implies 1 <= (#[trigger] r[i]).rank < next_id + 1 by {
        if i < keys.len() {
            assert(r[i] == keys[i]);
        }
    }
    assert forall|i: int, j: int| 0 <= i < j < r.len() implies (#[trigger] r[i]).rank != (
    #[trigger] r[j]).rank by {
        if j == keys.len() {
            assert(r[i] == keys[i]);
        } else {
            assert(r[i] == keys[i] && r[j] == keys[j]);
        }
    }
}

/// A store in order, with room left, stays in order when a transaction that
/// it does not hold enters it.
#[verifier::rlimit(40)]
pub proof fn lemma_entered_wf(v: StoreView, t: MempoolTransaction)
    requires
        v.wf(),
        !v.has(t.pointer()),
        v.txns.len() < v.capacity,
        count_for(v.txns, t.pointer().0) < v.capacity_per_user,
    ensures
        v.entered(t).wf(),
        forall|q: TxnPointer| v.entered(t).has(q) <==> (v.has(q) || q == t.pointer()),
        is_place(v.txns, place(v.txns, t.pointer()), t.pointer()),
{
    reveal(StoreView::wf);
    let e = v.entered(t);
    let pointer = t.pointer();
    lemma_place_exists(v.txns, pointer);
    let n = place(v.txns, pointer);
    lemma_txns_insert(v.txns, n, t);
    lemma_with_ranked(v.expiration, client_key(t), false);
    lemma_with_ranked(v.system_ttl, system_key(t), false);
    lemma_hash_with(v.hashes, t.txn.spec_committed_hash(), pointer);
    assert(!holds(v.expiration, pointer));
    assert(!holds(v.system_ttl, pointer));
    assert(!hash_holds(v.hashes, pointer));
    assert(e.indices_wf());
    assert(e.covered()) by {
        assert forall|q: TxnPointer| #[trigger] holds(e.priority, q) implies e.has(q) by {
            assert(holds(v.priority, q));
        }
        assert forall|q: TxnPointer| #[trigger] holds(e.expiration, q) implies e.has(q) by {
            assert(holds(v.expiration, q) || q == pointer);
        }
        assert forall|q: TxnPointer| #[trigger] holds(e.system_ttl, q) implies e.has(q) by {
            assert(holds(v.system_ttl, q) || q == pointer);
        }
        assert forall|q: TxnPointer| #[trigger] holds(e.timeline, q) implies e.has(q) by {
            assert(holds(v.timeline, q));
        }
        assert forall|q: TxnPointer| #[trigger] holds(e.parking, q) implies e.has(q) by {
            assert(holds(v.parking, q));
        }
        assert forall|q: TxnPointer| #[trigger] hash_holds(e.hashes, q) implies e.has(q) by {
            assert(hash_holds(v.hashes, q) || q == pointer);
        }
    }
    assert(e.indexed()) by {
        assert forall|j: int| 0 <= j < e.txns.len() implies {
            &&& e.system_ttl.contains(system_key(#[trigger] e.txns[j]))
            &&& e.expiration.contains(client_key(e.txns[j]))
            &&& e.hashes.contains((e.txns[j].txn.spec_committed_hash(), e.txns[j].pointer()))
        } by {
            if j == n {
                assert(e.txns[j] == t);
            } else {
                let j2 = if j < n {
                    j
                } else {
                    j - 1
                };
                assert(e.txns[j] == v.txns[j2]);
                assert(v.system_ttl.contains(system_key(v.txns[j2])));
            }
        }
    }
    assert(e.separated());
    lemma_entered_rest(v, t);
}

/// The timeline stays in step with the states of the transactions, and no
/// account gets more transactions than it may have, when a transaction
/// enters the store.
#[verifier::rlimit(40)]
pub proof fn lemma_entered_rest(v: StoreView, t: MempoolTransaction)
    requires
        v.timed(),
        v.bounded(),
        v.covered(),
        sorted(v.txns),
        !v.has(t.pointer()),
        count_for(v.txns, t.pointer().0) < v.capacity_per_user,
    ensures
        v.entered(t).timed(),
        v.entered(t).bounded(),
{
    let e = v.entered(t);
    let pointer = t.pointer();
    lemma_place_exists(v.txns, pointer);
    let n = place(v.txns, pointer);
    assert(e.timed()) by {
        assert forall|j: int, k: int|
            0 <= j < e.txns.len() && 0 <= k < e.timeline.len() && (#[trigger] e.timeline[k]).pointer()
                == (#[trigger] e.txns[j]).pointer() implies e.txns[j].timeline_state
            == TimelineState::Ready(e.timeline[k].rank) by {
            if j == n {
                assert(e.txns[j] == t);
                assert(holds(v.timeline, pointer));
            } else {
                let j2 = if j < n {
                    j
                } else {
                    j - 1
                };
                assert(e.txns[j] == v.txns[j2]);
                assert(v.timeline[k].pointer() == v.txns[j2].pointer());
            }
        }
    }
    assert(e.bounded()) by {
        assert forall|address: AccountAddress| #[trigger]
            count_for(e.txns, address) <= e.capacity_per_user by {
            lemma_count_insert(v.txns, n, t, address);
            assert(count_for(v.txns, address) <= v.capacity_per_user);
        }
    }
}

/// Sorted transactions have a place for every pointer.
pub proof fn lemma_place_exists(txns: Seq<MempoolTransaction>, pointer: TxnPointer)
    requires
        sorted(txns),
    ensures
        is_place(txns, place(txns, pointer), pointer),
    decreases txns.len(),
{
    if txns.len() == 0 {
        assert(is_place(txns, 0, pointer));
    } else if !pointer_lt(txns[0].pointer(), pointer) {
        assert forall|i: int| 0 <= i < txns.len() implies !pointer_lt(
            (#[trigger] txns[i]).pointer(),
            pointer,
        ) by {
            if i > 0 {
                assert(pointer_lt(txns[0].pointer(), txns[i].pointer()));
            }
        }
        assert(is_place(txns, 0, pointer));
    } else {
        let rest = txns.drop_first();
        assert(sorted(rest)) by {
            assert forall|i: int, j: int| 0 <= i < j < rest.len() implies pointer_lt(
                (#[trigger] rest[i]).pointer(),
                (#[trigger] rest[j]).pointer(),
            ) by {
                assert(rest[i] == txns[i + 1] && rest[j] == txns[j + 1]);
            }
        }
        lemma_place_exists(rest, pointer);
        let m = place(rest, pointer);
        assert(is_place(txns, m + 1, pointer)) by {
            assert forall|i: int| 0 <= i < m + 1 implies pointer_lt(
                (#[trigger] txns[i]).pointer(),
                pointer,
            ) by {
                if i > 0 {
                    assert(txns[i] == rest[i - 1]);
                }
            }
            assert forall|i: int| m + 1 <= i < txns.len() implies !pointer_lt(
                (#[trigger] txns[i]).pointer(),
                pointer,
            ) by {
                assert(txns[i] == rest[i - 1]);
            }
        }
    }
}

/// A store in order stays in order when a transaction is promoted; the
/// transactions stay where they are, and only the promoted one may change,
/// in its timeline state.
#[verifier::rlimit(40)]
pub proof fn lemma_promoted_wf(v: StoreView, i: int)
    requires
        v.wf(),
        0 <= i < v.txns.len(),
    ensures
        v.promoted(i).wf(),
        same_pointers(v.promoted(i).txns, v.txns),
        forall|j: int| 0 <= j < v.txns.len() && j != i ==> #[trigger] v.promoted(i).txns[j] == v.txns[j],
        forall|q: TxnPointer| v.promoted(i).has(q) <==> v.has(q),
        v.promoted(i).capacity == v.capacity,
        v.promoted(i).capacity_per_user == v.capacity_per_user,
{
    reveal(StoreView::wf);
    let p = v.promoted(i);
    let t = v.txns[i];
    let pointer = t.pointer();
    lemma_with_ranked(v.priority, priority_key(t), true);
    lemma_without(v.parking, pointer, false);
    if v.enters_timeline(i) {
        lemma_timeline_push(v.timeline, v.next_timeline_id, pointer);
    }
    assert(forall|j: int|
        0 <= j < v.txns.len() ==> (#[trigger] p.txns[j]).pointer() == v.txns[j].pointer()
            && p.txns[j].txn == v.txns[j].txn);
    assert(sorted(p.txns)) by {
        assert forall|a: int, b: int| 0 <= a < b < p.txns.len() implies pointer_lt(
            (#[trigger] p.txns[a]).pointer(),
            (#[trigger] p.txns[b]).pointer(),
        ) by {
            assert(pointer_lt(v.txns[a].pointer(), v.txns[b].pointer()));
        }
    }
    assert forall|q: TxnPointer| p.has(q) <==> v.has(q) by {
        if p.has(q) {
            let a = choose|a: int| 0 <= a < p.txns.len() && (#[trigger] p.txns[a]).pointer() == q;
            assert(v.txns[a].pointer() == q);
        }
        if v.has(q) {
            let a = choose|a: int| 0 <= a < v.txns.len() && (#[trigger] v.txns[a]).pointer() == q;
            assert(p.txns[a].pointer() == q);
        }
    }
    assert(v.has(pointer)) by {
        assert(v.txns[i].pointer() == pointer);
    }
    assert(p.indices_wf());
    assert(p.covered()) by {
        assert forall|q: TxnPointer| #[trigger] holds(p.priority, q) implies p.has(q) by {
            assert(holds(v.priority, q) || q == pointer);
        }
        assert forall|q: TxnPointer| #[trigger] holds(p.expiration, q) implies p.has(q) by {
            assert(holds(v.expiration, q));
        }
        assert forall|q: TxnPointer| #[trigger] holds(p.system_ttl, q) implies p.has(q) by {
            assert(holds(v.system_ttl, q));
        }
        assert forall|q: TxnPointer| #[trigger] holds(p.timeline, q) implies p.has(q) by {
            assert(holds(v.timeline, q) || q == pointer);
        }
        assert forall|q: TxnPointer| #[trigger] holds(p.parking, q) implies p.has(q) by {
            assert(holds(v.parking, q));
        }
        assert forall|q: TxnPointer| #[trigger] hash_holds(p.hashes, q) implies p.has(q) by {
            assert(hash_holds(v.hashes, q));
        }
    }
    assert(p.indexed()) by {
        assert forall|j: int| 0 <= j < p.txns.len() implies {
            &&& p.system_ttl.contains(system_key(#[trigger] p.txns[j]))
            &&& p.expiration.contains(client_key(p.txns[j]))
            &&& p.hashes.contains((p.txns[j].txn.spec_committed_hash(), p.txns[j].pointer()))
        } by {
            assert(v.system_ttl.contains(system_key(v.txns[j])));
            assert(system_key(p.txns[j]) == system_key(v.txns[j]));
            assert(client_key(p.txns[j]) == client_key(v.txns[j]));
        }
    }
    assert(p.separated()) by {
        assert forall|q: TxnPointer| #[trigger] holds(p.parking, q) implies !holds(p.priority, q)
            && !holds(p.timeline, q) by {
            assert(holds(v.parking, q) && q != pointer);
        }
    }
    lemma_promoted_rest(v, i);
}

/// The timeline stays in step with the states of the transactions, and no
/// account gets more transactions than it may have, when a transaction is
/// promoted.
#[verifier::rlimit(40)]
pub proof fn lemma_promoted_rest(v: StoreView, i: int)
    requires
        v.timed(),
        v.bounded(),
        sorted(v.txns),
        0 <= i < v.txns.len(),
    ensures
        v.promoted(i).timed(),
        v.promoted(i).bounded(),
{
    let p = v.promoted(i);
    let t = v.txns[i];
    let pointer = t.pointer();
    assert(same_pointers(p.txns, v.txns));
    assert(p.timed()) by {
        assert forall|j: int, k: int|
            0 <= j < p.txns.len() && 0 <= k < p.timeline.len() && (#[trigger] p.timeline[k]).pointer()
                == (#[trigger] p.txns[j]).pointer() implies p.txns[j].timeline_state
            == TimelineState::Ready(p.timeline[k].rank) by {
            if v.enters_timeline(i) {
                if k == v.timeline.len() {
                    if j != i {
                        lemma_sorted_distinct(v.txns, j, i);
                    }
                } else {
                    assert(p.timeline[k] == v.timeline[k]);
                    if j == i {
                        assert(holds(v.timeline, pointer));
                    } else {
                        assert(v.timeline[k].pointer() == v.txns[j].pointer());
                    }
                }
            } else {
                assert(v.timeline[k].pointer() == v.txns[j].pointer());
            }
        }
    }
    assert(p.bounded()) by {
        assert forall|address: AccountAddress| #[trigger]
            count_for(p.txns, address) <= p.capacity_per_user by {
            lemma_count_same(p.txns, v.txns, address);
            assert(count_for(v.txns, address) <= v.capacity_per_user);
        }
    }
}

/// A store in order stays in order when a transaction is parked; the
/// transactions stay as they are.
#[verifier::rlimit(40)]
pub proof fn lemma_parked_wf(v: StoreView, i: int)
    requires
        v.wf(),
        0 <= i < v.txns.len(),
    ensures
        v.parked(i).wf(),
        v.parked(i).txns == v.txns,
        v.parked(i).capacity == v.capacity,
        v.parked(i).capacity_per_user == v.capacity_per_user,
        v.parked(i).next_timeline_id == v.next_timeline_id,
{
    reveal(StoreView::wf);
    let p = v.parked(i);
    let t = v.txns[i];
    let pointer = t.pointer();
    lemma_without(v.priority, pointer, true);
    lemma_timeline_without(v.timeline, v.next_timeline_id, pointer);
    lemma_without(v.timeline, pointer, false);
    assert(v.has(pointer)) by {
        assert(v.txns[i].pointer() == pointer);
    }
    if !holds(v.parking, pointer) {
        let key = parking_key(t);
        assert(p.parking =~= v.parking.insert(v.parking.len() as int, key));
        crate::mempool::index::lemma_insert_distinct(v.parking, v.parking.len() as int, key);
        assert forall|q: TxnPointer| holds(p.parking, q) <==> (holds(v.parking, q) || q
            == pointer) by {
            crate::mempool::index::lemma_insert_holds(v.parking, v.parking.len() as int, key, q);
        }
    }
    assert(p.indices_wf());
    assert(p.covered()) by {
        assert forall|q: TxnPointer| #[trigger] holds(p.priority, q) implies p.has(q) by {
            assert(holds(v.priority, q));
        }
        assert forall|q: TxnPointer| #[trigger] holds(p.timeline, q) implies p.has(q) by {
            assert(holds(v.timeline, q));
        }
        assert forall|q: TxnPointer| #[trigger] holds(p.parking, q) implies p.has(q) by {
            assert(holds(v.parking, q) || q == pointer);
        }
    }
    assert(p.indexed());
    assert(p.separated()) by {
        assert forall|q: TxnPointer| #[trigger] holds(p.parking, q) implies !holds(p.priority, q)
            && !holds(p.timeline, q) by {
            if q != pointer {
                assert(holds(v.parking, q));
            }
        }
    }
    assert(p.timed()) by {
        assert forall|j: int, k: int|
            0 <= j < p.txns.len() && 0 <= k < p.timeline.len() && (#[trigger] p.timeline[k]).pointer()
                == (#[trigger] p.txns[j]).pointer() implies p.txns[j].timeline_state
            == TimelineState::Ready(p.timeline[k].rank) by {
            lemma_without_index(v.timeline, pointer, k);
            let k2 = choose|k2: int| 0 <= k2 < v.timeline.len() && v.timeline[k2] == p.timeline[k];
            assert(v.timeline[k2].pointer() == v.txns[j].pointer());
        }
    }
}

/// Whether the transaction at place `i` was committed already: it is of the
/// account and its sequence number is below the account's.
pub open spec fn is_committed(v: StoreView, i: int, address: AccountAddress, min_seq: u64) -> bool {
    v.txns[i].pointer().0 == address && v.txns[i].pointer().1 < min_seq
}

/// The store after every committed transaction of the account from place
/// `i` on left it.
pub open spec fn cleaned_from(v: StoreView, address: AccountAddress, min_seq: u64, i: int) -> StoreView
    decreases v.txns.len() - i,
{
    if i < 0 || i >= v.txns.len() {
        v
    } else if is_committed(v, i, address, min_seq) {
        cleaned_from(v.dropped(i), address, min_seq, i)
    } else {
        cleaned_from(v, address, min_seq, i + 1)
    }
}

/// The store after every transaction of the account with a sequence number
/// below `min_seq` left it.
pub open spec fn cleaned(v: StoreView, address: AccountAddress, min_seq: u64) -> StoreView {
    cleaned_from(v, address, min_seq, 0)
}

/// Cleaning keeps the store in order, takes out the committed transactions
/// of the account and nothing else, and leaves the limits and the counter of
/// the timeline alone.
#[verifier::rlimit(40)]
pub proof fn lemma_cleaned_from(v: StoreView, address: AccountAddress, min_seq: u64, i: int)
    requires
        v.wf(),
        0 <= i,
        forall|j: int| 0 <= j < i && j < v.txns.len() ==> !is_committed(v, j, address, min_seq),
    ensures
        cleaned_from(v, address, min_seq, i).wf(),
        cleaned_from(v, address, min_seq, i).txns.len() <= v.txns.len(),
        cleaned_from(v, address, min_seq, i).capacity == v.capacity,
        cleaned_from(v, address, min_seq, i).capacity_per_user == v.capacity_per_user,
        cleaned_from(v, address, min_seq, i).next_timeline_id == v.next_timeline_id,
        forall|q: TxnPointer|
            cleaned_from(v, address, min_seq, i).has(q) <==> (v.has(q) && !(q.0 == address && q.1
                < min_seq)),
    decreases v.txns.len() - i,
{
    if i >= v.txns.len() {
        assert forall|q: TxnPointer| v.has(q) implies !(q.0 == address && q.1 < min_seq) by {
            let a = choose|a: int| 0 <= a < v.txns.len() && (#[trigger] v.txns[a]).pointer() == q;
            assert(!is_committed(v, a, address, min_seq));
        }
    } else if is_committed(v, i, address, min_seq) {
        let d = v.dropped(i);
        lemma_dropped_wf(v, i);
        assert forall|j: int| 0 <= j < i && j < d.txns.len() implies !is_committed(
            d,
            j,
            address,
            min_seq,
        ) by {
            assert(d.txns[j] == v.txns[j]);
            assert(!is_committed(v, j, address, min_seq));
        }
        lemma_cleaned_from(d, address, min_seq, i);
    } else {
        lemma_cleaned_from(v, address, min_seq, i + 1);
    }
}

/// Whether a transaction of the account with the sequence number `seq` is
/// ready: for sequence numbers that go one after another, `seq` is the next
/// one, `next`; for a window, `seq` lies in it.
pub open spec fn is_ready(info: AccountSequenceInfo, next: int, seq: u64) -> bool {
    match info {
        AccountSequenceInfo::Sequential(_) => seq == next,
        AccountSequenceInfo::CRSN { min_nonce, size } => min_nonce <= seq < min_nonce + size,
    }
}

/// The store after the transactions of the account from place `i` on were
/// gone through in the order of their sequence numbers: each one that is
/// ready is promoted, and each other one is parked.
pub open spec fn processed_from(
    v: StoreView,
    address: AccountAddress,
    info: AccountSequenceInfo,
    i: int,
    next: int,
) -> StoreView
    decreases v.txns.len() - i,
{
    if i < 0 || i >= v.txns.len() {
        v
    } else if v.txns[i].pointer().0 != address {
        processed_from(v, address, info, i + 1, next)
    } else if is_ready(info, next, v.txns[i].pointer().1) {
        processed_from(v.promoted(i), address, info, i + 1, next + 1)
    } else {
        processed_from(v.parked(i), address, info, i + 1, next)
    }
}

/// The store after the ready transactions of the account were promoted and
/// its other transactions parked. For sequence numbers that go one after
/// another, the ready ones are those from the account's sequence number on
/// without a gap; for a window, those within the window.
pub open spec fn processed(v: StoreView, address: AccountAddress, info: AccountSequenceInfo) -> StoreView {
    processed_from(v, address, info, 0, info.spec_min_seq() as int)
}

/// Promoting and parking keep the store in order and the transactions at
/// their places.
#[verifier::rlimit(40)]
pub proof fn lemma_processed_from(
    v: StoreView,
    address: AccountAddress,
    info: AccountSequenceInfo,
    i: int,
    next: int,
)
    requires
        v.wf(),
        0 <= i,
    ensures
        processed_from(v, address, info, i, next).wf(),
        same_pointers(processed_from(v, address, info, i, next).txns, v.txns),
        processed_from(v, address, info, i, next).capacity == v.capacity,
        processed_from(v, address, info, i, next).capacity_per_user == v.capacity_per_user,
    decreases v.txns.len() - i,
{
    if i >= v.txns.len() {
    } else if v.txns[i].pointer().0 != address {
        lemma_processed_from(v, address, info, i + 1, next);
    } else if is_ready(info, next, v.txns[i].pointer().1) {
        lemma_promoted_wf(v, i);
        let p = v.promoted(i);
        lemma_processed_from(p, address, info, i + 1, next + 1);
        let r = processed_from(p, address, info, i + 1, next + 1);
        assert(same_pointers(r.txns, v.txns)) by {
            assert forall|j: int| 0 <= j < r.txns.len() implies (#[trigger] r.txns[j]).pointer()
                == v.txns[j].pointer() && r.txns[j].txn == v.txns[j].txn by {
                assert(p.txns[j].pointer() == v.txns[j].pointer());
            }
        }
    } else {
        lemma_parked_wf(v, i);
        lemma_processed_from(v.parked(i), address, info, i + 1, next);
    }
}

/// The store after garbage collection from place `i` on. `expired` are the
/// keys of the expired transactions, and `flagged` is the account of the
/// last transaction that was found expired. Each expired transaction leaves
/// the store; each other transaction of an account that lost one with a
/// lower sequence number is parked.
pub open spec fn collected_from(
    v: StoreView,
    expired: Seq<IndexKey>,
    i: int,
    flagged: Option<AccountAddress>,
) -> StoreView
    decreases v.txns.len() - i,
{
    if i < 0 || i >= v.txns.len() {
        v
    } else if holds(expired, v.txns[i].pointer()) {
        collected_from(v.dropped(i), expired, i, Some(v.txns[i].pointer().0))
    } else if flagged == Some(v.txns[i].pointer().0) {
        collected_from(v.parked(i), expired, i + 1, flagged)
    } else {
        collected_from(v, expired, i + 1, flagged)
    }
}

/// The keys of an index of expiry that are expired at `now`: those with a
/// time of `now` or earlier.
pub open spec fn expired_keys(keys: Seq<IndexKey>, now: u64) -> Seq<IndexKey> {
    keys.take(split_point(keys, now, false))
}

/// The store after garbage collection at the time `now`, by the time at
/// which the mempool drops a transaction or by the time at which its client
/// lets it expire.
pub open spec fn collected(v: StoreView, now: u64, by_system_ttl: bool) -> StoreView {
    collected_from(
        v,
        expired_keys(
            if by_system_ttl {
                v.system_ttl
            } else {
                v.expiration
            },
            now,
        ),
        0,
        None,
    )
}

/// Garbage collection keeps the store in order; the transactions that stay
/// are those that are not expired.
#[verifier::rlimit(40)]
pub proof fn lemma_collected_from(
    v: StoreView,
    expired: Seq<IndexKey>,
    i: int,
    flagged: Option<AccountAddress>,
)
    requires
        v.wf(),
        0 <= i,
        forall|j: int| 0 <= j < i && j < v.txns.len() ==> !holds(expired, (#[trigger] v.txns[j]).pointer()),
    ensures
        collected_from(v, expired, i, flagged).wf(),
        collected_from(v, expired, i, flagged).txns.len() <= v.txns.len(),
        collected_from(v, expired, i, flagged).capacity == v.capacity,
        collected_from(v, expired, i, flagged).capacity_per_user == v.capacity_per_user,
        forall|q: TxnPointer|
            collected_from(v, expired, i, flagged).has(q) <==> (v.has(q) && !holds(expired, q)),
    decreases v.txns.len() - i,
{
    let r = collected_from(v, expired, i, flagged);
    if i >= v.txns.len() {
        assert forall|q: TxnPointer| v.has(q) implies !holds(expired, q) by {
            let a = choose|a: int| 0 <= a < v.txns.len() && (#[trigger] v.txns[a]).pointer() == q;
        }
    } else if holds(expired, v.txns[i].pointer()) {
        let d = v.dropped(i);
        lemma_dropped_wf(v, i);
        assert forall|j: int| 0 <= j < i && j < d.txns.len() implies !holds(
            expired,
            (#[trigger] d.txns[j]).pointer(),
        ) by {
            assert(d.txns[j] == v.txns[j]);
        }
        lemma_collected_from(d, expired, i, Some(v.txns[i].pointer().0));
        assert forall|q: TxnPointer| r.has(q) <==> (v.has(q) && !holds(expired, q)) by {
            assert(r.has(q) <==> (d.has(q) && !holds(expired, q)));
            assert(d.has(q) <==> (v.has(q) && q != v.txns[i].pointer()));
        }
    } else if flagged == Some(v.txns[i].pointer().0) {
        lemma_parked_wf(v, i);
        let p = v.parked(i);
        assert forall|j: int| 0 <= j < i + 1 && j < p.txns.len() implies !holds(
            expired,
            (#[trigger] p.txns[j]).pointer(),
        ) by {
            assert(p.txns[j] == v.txns[j]);
        }
        lemma_collected_from(p, expired, i + 1, flagged);
        assert forall|q: TxnPointer| r.has(q) <==> (v.has(q) && !holds(expired, q)) by {
            assert(r.has(q) <==> (p.has(q) && !holds(expired, q)));
        }
    } else {
        lemma_collected_from(v, expired, i + 1, flagged);
    }
}

/// Whether `new` may take the place of `current`, a transaction of the same
/// account and sequence number: it asks for the same gas, payload and client
/// expiry, and offers a strictly higher price for gas.
pub open spec fn can_replace(current: MempoolTransaction, new: MempoolTransaction) -> bool {
    &&& current.txn.raw_txn.max_gas_amount == new.txn.raw_txn.max_gas_amount
    &&& current.txn.raw_txn.payload@ == new.txn.raw_txn.payload@
    &&& current.txn.raw_txn.expiration_timestamp_secs == new.txn.raw_txn.expiration_timestamp_secs
    &&& current.txn.raw_txn.gas_unit_price < new.txn.raw_txn.gas_unit_price
}

/// Whether a transaction would be ready as soon as it entered the store: its
/// sequence number is the account's, or the transaction before it in the
/// account's sequence is in the store and ready.
pub open spec fn txn_ready(v: StoreView, t: MempoolTransaction, account_seq: u64) -> bool {
    let address = t.pointer().0;
    let seq = t.pointer().1;
    ||| seq == account_seq
    ||| {
        &&& seq > 0
        &&& v.has((address, (seq - 1) as u64))
        &&& v.txns[txn_position(v.txns, (address, (seq - 1) as u64))].timeline_state is Ready
    }
}

/// Whether the store evicts a parked transaction to make room for `t`: it is
/// full, `t` would be ready, and a transaction is parked.
pub open spec fn evicts(v: StoreView, t: MempoolTransaction) -> bool {
    &&& v.txns.len() >= v.capacity
    &&& txn_ready(v, t, t.sequence_info.account_sequence_number_type.spec_min_seq())
    &&& v.parking.len() > 0
    &&& v.has(v.parking.last().pointer())
}

/// The store after it made room for `t`, where it does: the transaction that
/// was parked last has left.
pub open spec fn evicted(v: StoreView, t: MempoolTransaction) -> StoreView {
    if evicts(v, t) {
        v.dropped(txn_position(v.txns, v.parking.last().pointer()))
    } else {
        v
    }
}

/// The store after `t` was submitted to it, and the answer.
///
/// A transaction that the store holds already, in the same canonical
/// encoding, is accepted and changes nothing. One that the store holds in
/// another version replaces it where it may, and is refused where it may
/// not. Then the store makes room where it is full and the transaction would
/// be ready, and refuses the transaction where it is still full. Then the
/// committed transactions of the account leave, and the transaction is
/// refused where the account has as many transactions as it may. Otherwise
/// the transaction enters, and the account's transactions are promoted and
/// parked anew.
pub open spec fn inserted(v: StoreView, t: MempoolTransaction) -> (StoreView, MempoolStatusCode) {
    let pointer = t.pointer();
    let info = t.sequence_info.account_sequence_number_type;
    let at = txn_position(v.txns, pointer);
    if v.has(pointer) && v.txns[at].txn@ == t.txn@ {
        (v, MempoolStatusCode::Accepted)
    } else if v.has(pointer) && !can_replace(v.txns[at], t) {
        (v, MempoolStatusCode::InvalidUpdate)
    } else {
        let v1 = if v.has(pointer) {
            v.dropped(at)
        } else {
            v
        };
        let v2 = evicted(v1, t);
        if v2.txns.len() >= v2.capacity {
            (v2, MempoolStatusCode::MempoolIsFull)
        } else {
            let v3 = cleaned(v2, pointer.0, info.spec_min_seq());
            if count_for(v3.txns, pointer.0) >= v3.capacity_per_user {
                (v3, MempoolStatusCode::TooManyTransactions)
            } else {
                (processed(v3.entered(t), pointer.0, info), MempoolStatusCode::Accepted)
            }
        }
    }
}

/// Whether `batch` holds, for each key of `keys` in turn, the signed
/// transaction that the key points at.
pub open spec fn batch_matches(
    v: StoreView,
    keys: Seq<IndexKey>,
    batch: Seq<SignedTransaction>,
) -> bool {
    &&& batch.len() == keys.len()
    &&& forall|k: int|
        0 <= k < keys.len() ==> v.has((#[trigger] keys[k]).pointer()) && batch[k]@
            == v.txns[txn_position(v.txns, keys[k].pointer())].txn@
}

/// The timeline id up to which a batch of the timeline reaches: that of its
/// last key, and `timeline_id` where it is empty.
pub open spec fn high_water_mark(keys: Seq<IndexKey>, timeline_id: u64) -> u64 {
    if keys.len() > 0 {
        keys.last().rank
    } else {
        timeline_id
    }
}

/// A key that a list holds points where the list holds a key.
pub proof fn lemma_contains_holds(keys: Seq<IndexKey>, key: IndexKey)
    requires
        keys.contains(key),
    ensures
        holds(keys, key.pointer()),
{
    let i = choose|i: int| 0 <= i < keys.len() && keys[i] == key;
    assert(keys[i].pointer() == key.pointer());
}

/// The message that comes with the answer to a submission: none where the
/// transaction is accepted, and else the numbers that the store refused it
/// for.
pub open spec fn inserted_message(v: StoreView, t: MempoolTransaction) -> Seq<char> {
    let pointer = t.pointer();
    let info = t.sequence_info.account_sequence_number_type;
    let at = txn_position(v.txns, pointer);
    if v.has(pointer) && v.txns[at].txn@ == t.txn@ {
        Seq::<char>::empty()
    } else if v.has(pointer) && !can_replace(v.txns[at], t) {
        invalid_update_message(t.txn.raw_txn.gas_unit_price)
    } else {
        let v1 = if v.has(pointer) {
            v.dropped(at)
        } else {
            v
        };
        let v2 = evicted(v1, t);
        if v2.txns.len() >= v2.capacity {
            full_message(v2.txns.len() as usize, v2.capacity)
        } else {
            let v3 = cleaned(v2, pointer.0, info.spec_min_seq());
            if count_for(v3.txns, pointer.0) >= v3.capacity_per_user {
                too_many_message(count_for(v3.txns, pointer.0) as usize, v3.capacity_per_user)
            } else {
                Seq::<char>::empty()
            }
        }
    }
}

} // verus!
