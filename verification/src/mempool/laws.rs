//! What holds of every transaction store.

use crate::account_address::AccountAddress;
use crate::mempool::index::{
    hash_holds, holds, lemma_insert_holds, lemma_with_ranked, lemma_without, position,
    TxnPointer,
};
use crate::mempool::model::{
    cleaned, evicted, evicts, inserted, is_ready, lemma_cleaned_from, lemma_dropped_wf,
    lemma_entered_wf, lemma_parked_wf, lemma_processed_from, lemma_promoted_wf,
    lemma_sorted_distinct, lemma_wf_parts, parking_key, place, pointer_lt, priority_key,
    processed, processed_from, same_pointers, sorted, txn_position, txn_ready, StoreView,
};
use crate::mempool::status::MempoolStatusCode;
use crate::mempool::transaction::{AccountSequenceInfo, MempoolTransaction};
use vstd::prelude::*;

verus! {

/// Every transaction of a store is in both indices of expiry and in the hash
/// index, and it is not at once parked and in the priority index or on the
/// timeline.
pub proof fn lemma_index_membership(v: StoreView, q: TxnPointer)
    requires
        v.wf(),
        v.has(q),
    ensures
        holds(v.system_ttl, q),
        holds(v.expiration, q),
        hash_holds(v.hashes, q),
        !(holds(v.parking, q) && (holds(v.priority, q) || holds(v.timeline, q))),
{
    lemma_wf_parts(v);
    let i = txn_position(v.txns, q);
    let t = v.txns[i];
    let a = choose|a: int| 0 <= a < v.system_ttl.len() && v.system_ttl[a] == crate::mempool::model::system_key(t);
    assert(v.system_ttl[a].pointer() == q);
    let b = choose|b: int| 0 <= b < v.expiration.len() && v.expiration[b] == crate::mempool::model::client_key(t);
    assert(v.expiration[b].pointer() == q);
    let c = choose|c: int|
        0 <= c < v.hashes.len() && v.hashes[c] == (t.txn.spec_committed_hash(), t.pointer());
    assert(v.hashes[c].1 == q);
}

/// Submitting a transaction that was accepted once more is accepted again
/// and changes nothing.
#[verifier::rlimit(40)]
pub proof fn lemma_insert_twice(v: StoreView, t: MempoolTransaction)
    requires
        v.wf(),
        inserted(v, t).1 == MempoolStatusCode::Accepted,
    ensures
        inserted(inserted(v, t).0, t) == (inserted(v, t).0, MempoolStatusCode::Accepted),
{
    let pointer = t.pointer();
    let info = t.sequence_info.account_sequence_number_type;
    let at = txn_position(v.txns, pointer);
    if v.has(pointer) && v.txns[at].txn@ == t.txn@ {
    } else {
        let v1 = if v.has(pointer) {
            v.dropped(at)
        } else {
            v
        };
        if v.has(pointer) {
            lemma_dropped_wf(v, at);
        }
        let v2 = evicted(v1, t);
        if evicts(v1, t) {
            lemma_dropped_wf(v1, txn_position(v1.txns, v1.parking.last().pointer()));
        }
        lemma_cleaned_from(v2, pointer.0, info.spec_min_seq(), 0);
        let v3 = cleaned(v2, pointer.0, info.spec_min_seq());
        assert(v3.txns.len() < v3.capacity);
        lemma_entered_wf(v3, t);
        let e = v3.entered(t);
        lemma_processed_from(e, pointer.0, info, 0, info.spec_min_seq() as int);
        let r = processed(e, pointer.0, info);
        let n = place(v3.txns, pointer);
        assert(e.txns[n] == t);
        assert(r.txns[n].pointer() == pointer && r.txns[n].txn == t.txn);
        assert(r.has(pointer));
        lemma_wf_parts(r);
        lemma_sorted_distinct(r.txns, txn_position(r.txns, pointer), n);
    }
}

/// A store without room refuses a transaction that would not be ready, and
/// one that would be ready while nothing is parked, and changes nothing. For
/// one that would be ready it lets the transaction that was parked last
/// leave, and no other.
pub proof fn lemma_full_store(v: StoreView, t: MempoolTransaction)
    requires
        v.wf(),
        !v.has(t.pointer()),
        v.txns.len() >= v.capacity,
    ensures
        !txn_ready(v, t, t.sequence_info.account_sequence_number_type.spec_min_seq()) ==> inserted(
            v,
            t,
        ) == (v, MempoolStatusCode::MempoolIsFull),
        v.parking.len() == 0 ==> inserted(v, t) == (v, MempoolStatusCode::MempoolIsFull),
        txn_ready(v, t, t.sequence_info.account_sequence_number_type.spec_min_seq())
            && v.parking.len() > 0 ==> {
            &&& evicted(v, t).txns.len() + 1 == v.txns.len()
            &&& evicted(v, t).parking == v.parking.drop_last()
            &&& !evicted(v, t).has(v.parking.last().pointer())
            &&& forall|q: TxnPointer|
                q != v.parking.last().pointer() ==> (evicted(v, t).has(q) <==> v.has(q))
        },
{
    lemma_wf_parts(v);
    if txn_ready(v, t, t.sequence_info.account_sequence_number_type.spec_min_seq())
        && v.parking.len() > 0 {
        let last = v.parking.last();
        assert(holds(v.parking, last.pointer())) by {
            assert(v.parking[v.parking.len() - 1].pointer() == last.pointer());
        }
        assert(v.has(last.pointer()));
        let at = txn_position(v.txns, last.pointer());
        lemma_dropped_wf(v, at);
        let p = position(v.parking, last.pointer());
        if p != v.parking.len() - 1 {
            assert(v.parking[p].pointer() != v.parking[v.parking.len() - 1].pointer());
        }
        assert(v.parking.remove(p) =~= v.parking.drop_last());
    }
}

/// Whether the store holds the transactions of the account with the
/// sequence numbers from `min_seq` up to `seq` without a gap.
pub open spec fn in_run(v: StoreView, address: AccountAddress, min_seq: u64, seq: u64) -> bool {
    &&& seq >= min_seq
    &&& forall|j: u64| min_seq <= j <= seq ==> #[trigger] v.has((address, j))
}

/// Whether a transaction of the account with the sequence number `seq` is
/// ready: for sequence numbers that go one after another, the store holds
/// those from the account's sequence number up to `seq` without a gap; for a
/// window, `seq` lies in it.
pub open spec fn ready_for(
    v: StoreView,
    address: AccountAddress,
    info: AccountSequenceInfo,
    seq: u64,
) -> bool {
    match info {
        AccountSequenceInfo::Sequential(min_seq) => in_run(v, address, min_seq, seq),
        AccountSequenceInfo::CRSN { min_nonce, size } => min_nonce <= seq < min_nonce + size,
    }
}

/// Whether one of the first `i` transactions has the pointer.
pub open spec fn has_before(v: StoreView, i: int, pointer: TxnPointer) -> bool {
    exists|k: int| 0 <= k < i && k < v.txns.len() && (#[trigger] v.txns[k]).pointer() == pointer
}

/// What promoting the transaction at place `i` does to the indices: its
/// pointer enters the priority index and leaves the parking lot, and no
/// other pointer moves.
pub proof fn lemma_promoted_membership(v: StoreView, i: int)
    requires
        v.wf(),
        0 <= i < v.txns.len(),
    ensures
        forall|q: TxnPointer|
            holds(v.promoted(i).priority, q) <==> (holds(v.priority, q) || q == v.txns[i].pointer()),
        forall|q: TxnPointer|
            holds(v.promoted(i).parking, q) <==> (holds(v.parking, q) && q != v.txns[i].pointer()),
{
    lemma_wf_parts(v);
    lemma_with_ranked(v.priority, priority_key(v.txns[i]), true);
    lemma_without(v.parking, v.txns[i].pointer(), false);
}

/// What parking the transaction at place `i` does to the indices: its
/// pointer enters the parking lot and leaves the priority index, and no
/// other pointer moves.
pub proof fn lemma_parked_membership(v: StoreView, i: int)
    requires
        v.wf(),
        0 <= i < v.txns.len(),
    ensures
        forall|q: TxnPointer|
            holds(v.parked(i).priority, q) <==> (holds(v.priority, q) && q != v.txns[i].pointer()),
        forall|q: TxnPointer|
            holds(v.parked(i).parking, q) <==> (holds(v.parking, q) || q == v.txns[i].pointer()),
{
    lemma_wf_parts(v);
    let pointer = v.txns[i].pointer();
    lemma_without(v.priority, pointer, true);
    if !holds(v.parking, pointer) {
        let key = parking_key(v.txns[i]);
        assert(v.parked(i).parking =~= v.parking.insert(v.parking.len() as int, key));
        assert forall|q: TxnPointer| holds(v.parked(i).parking, q) <==> (holds(v.parking, q) || q
            == pointer) by {
            lemma_insert_holds(v.parking, v.parking.len() as int, key, q);
        }
    }
}

/// Going through the transactions of an account from the place `i` on
/// promotes those that are ready and parks the others, and moves no other
/// pointer. For sequence numbers that go one after another, `next` is the
/// sequence number up to which the store holds the account's transactions
/// without a gap before the place `i`.
#[verifier::rlimit(40)]
pub proof fn lemma_processed_ready(
    v: StoreView,
    v0: StoreView,
    address: AccountAddress,
    info: AccountSequenceInfo,
    i: int,
    next: int,
)
    requires
        v.wf(),
        sorted(v0.txns),
        same_pointers(v.txns, v0.txns),
        0 <= i <= v.txns.len(),
        info is Sequential ==> {
            &&& info.spec_min_seq() <= next
            &&& forall|j: u64| info.spec_min_seq() <= j < next ==> #[trigger] has_before(v0, i, (address, j))
            &&& forall|k: int|
                0 <= k < i && (#[trigger] v0.txns[k]).pointer().0 == address ==> v0.txns[k].pointer().1
                    != next
        },
    ensures
        forall|k: int|
            i <= k < v.txns.len() && (#[trigger] v0.txns[k]).pointer().0 == address ==> {
                &&& holds(
                    processed_from(v, address, info, i, next).priority,
                    v0.txns[k].pointer(),
                ) <==> ready_for(v0, address, info, v0.txns[k].pointer().1)
                &&& holds(
                    processed_from(v, address, info, i, next).parking,
                    v0.txns[k].pointer(),
                ) <==> !ready_for(v0, address, info, v0.txns[k].pointer().1)
            },
        forall|q: TxnPointer|
            !(exists|k: int|
                i <= k < v.txns.len() && (#[trigger] v0.txns[k]).pointer() == q && q.0 == address)
                ==> (holds(processed_from(v, address, info, i, next).priority, q) <==> holds(
                v.priority,
                q,
            )) && (holds(processed_from(v, address, info, i, next).parking, q) <==> holds(
                v.parking,
                q,
            )),
    decreases v.txns.len() - i,
{
    let r = processed_from(v, address, info, i, next);
    if i >= v.txns.len() {
    } else {
        let t = v0.txns[i];
        let pointer = t.pointer();
        assert(v.txns[i].pointer() == pointer);
        if pointer.0 != address {
            assert forall|j: u64| info is Sequential && info.spec_min_seq() <= j < next implies #[trigger] has_before(
                v0,
                i + 1,
                (address, j),
            ) by {
                assert(has_before(v0, i, (address, j)));
                let k = choose|k: int|
                    0 <= k < i && k < v0.txns.len() && (#[trigger] v0.txns[k]).pointer() == (
                        address,
                        j,
                    );
                assert(v0.txns[k].pointer() == (address, j));
            }
            lemma_processed_ready(v, v0, address, info, i + 1, next);
        } else {
            let seq = pointer.1;
            let ready = is_ready(info, next, seq);
            // whether the transaction is ready by the contents of the store
            assert(ready == ready_for(v0, address, info, seq)) by {
                match info {
                    AccountSequenceInfo::CRSN { min_nonce, size } => {},
                    AccountSequenceInfo::Sequential(min_seq) => {
                        if seq == next {
                            assert forall|j: u64| min_seq <= j <= seq implies #[trigger] v0.has(
                                (address, j),
                            ) by {
                                if j < next {
                                    assert(has_before(v0, i, (address, j)));
                                    let k = choose|k: int|
                                        0 <= k < i && k < v0.txns.len() && (
                                        #[trigger] v0.txns[k]).pointer() == (address, j);
                                    assert(v0.txns[k].pointer() == (address, j));
                                } else {
                                    assert(v0.txns[i].pointer() == (address, j));
                                }
                            }
                        } else if seq < next {
                            if seq >= min_seq {
                                assert(has_before(v0, i, (address, seq)));
                                let k = choose|k: int|
                                    0 <= k < i && k < v0.txns.len() && (
                                    #[trigger] v0.txns[k]).pointer() == (address, seq);
                                lemma_sorted_distinct(v0.txns, k, i);
                            }
                        } else {
                            // the sequence number `next` is missing
                            let missing = (address, next as u64);
                            if v0.has(missing) {
                                let k = choose|k: int|
                                    0 <= k < v0.txns.len() && (#[trigger] v0.txns[k]).pointer()
                                        == missing;
                                if k < i {
                                    assert(v0.txns[k].pointer().1 != next);
                                } else if k > i {
                                    assert(pointer_lt(v0.txns[i].pointer(), v0.txns[k].pointer()));
                                }
                            }
                            assert(!v0.has(missing));
                        }
                    },
                }
            }
            let v1 = if ready {
                v.promoted(i)
            } else {
                v.parked(i)
            };
            let next1 = if ready {
                next + 1
            } else {
                next
            };
            if ready {
                lemma_promoted_wf(v, i);
                lemma_promoted_membership(v, i);
            } else {
                lemma_parked_wf(v, i);
                lemma_parked_membership(v, i);
            }
            assert(same_pointers(v1.txns, v0.txns)) by {
                assert forall|j: int| 0 <= j < v1.txns.len() implies (#[trigger] v1.txns[j]).pointer()
                    == v0.txns[j].pointer() && v1.txns[j].txn == v0.txns[j].txn by {
                    assert(v.txns[j].pointer() == v0.txns[j].pointer());
                }
            }
            if info is Sequential {
                assert forall|j: u64| info.spec_min_seq() <= j < next1 implies #[trigger] has_before(
                    v0,
                    i + 1,
                    (address, j),
                ) by {
                    if j < next {
                        assert(has_before(v0, i, (address, j)));
                        let k = choose|k: int|
                            0 <= k < i && k < v0.txns.len() && (#[trigger] v0.txns[k]).pointer() == (
                                address,
                                j,
                            );
                        assert(v0.txns[k].pointer() == (address, j));
                    } else {
                        assert(v0.txns[i].pointer() == (address, j));
                    }
                }
                assert forall|k: int|
                    0 <= k < i + 1 && (#[trigger] v0.txns[k]).pointer().0
                        == address implies v0.txns[k].pointer().1 != next1 by {
                    if k < i && ready {
                        assert(pointer_lt(v0.txns[k].pointer(), v0.txns[i].pointer()));
                    }
                }
            }
            lemma_processed_ready(v1, v0, address, info, i + 1, next1);
            assert forall|q: TxnPointer|
                !(exists|k: int|
                    i <= k < v.txns.len() && (#[trigger] v0.txns[k]).pointer() == q && q.0
                        == address) implies (holds(r.priority, q) <==> holds(v.priority, q)) && (
            holds(r.parking, q) <==> holds(v.parking, q)) by {
                assert(q != pointer);
                assert(!(exists|k: int|
                    i + 1 <= k < v1.txns.len() && (#[trigger] v0.txns[k]).pointer() == q && q.0
                        == address));
            }
            assert forall|k: int|
                i <= k < v.txns.len() && (#[trigger] v0.txns[k]).pointer().0 == address implies {
                &&& holds(r.priority, v0.txns[k].pointer()) <==> ready_for(
                    v0,
                    address,
                    info,
                    v0.txns[k].pointer().1,
                )
                &&& holds(r.parking, v0.txns[k].pointer()) <==> !ready_for(
                    v0,
                    address,
                    info,
                    v0.txns[k].pointer().1,
                )
            } by {
                if k == i {
                    // the later steps do not move the pointer of this transaction
                    assert(!(exists|m: int|
                        i + 1 <= m < v1.txns.len() && (#[trigger] v0.txns[m]).pointer() == pointer
                            && pointer.0 == address)) by {
                        if exists|m: int|
                            i + 1 <= m < v1.txns.len() && (#[trigger] v0.txns[m]).pointer()
                                == pointer && pointer.0 == address {
                            let m = choose|m: int|
                                i + 1 <= m < v1.txns.len() && (#[trigger] v0.txns[m]).pointer()
                                    == pointer && pointer.0 == address;
                            lemma_sorted_distinct(v0.txns, m, i);
                        }
                    }
                    lemma_wf_parts(v);
                    assert(!(holds(v.parking, pointer) && holds(v.priority, pointer)));
                }
            }
        }
    }
}

/// After the transactions of an account were promoted and parked anew, each
/// of them is in the priority index if and only if it is ready, and in the
/// parking lot if and only if it is not; the transactions of other accounts
/// stay where they are.
pub proof fn lemma_processed_membership(
    v: StoreView,
    address: AccountAddress,
    info: AccountSequenceInfo,
    q: TxnPointer,
)
    requires
        v.wf(),
        v.has(q),
    ensures
        q.0 == address ==> (holds(processed(v, address, info).priority, q) <==> ready_for(
            v,
            address,
            info,
            q.1,
        )),
        q.0 == address ==> (holds(processed(v, address, info).parking, q) <==> !ready_for(
            v,
            address,
            info,
            q.1,
        )),
        q.0 != address ==> (holds(processed(v, address, info).priority, q) <==> holds(
            v.priority,
            q,
        )) && (holds(processed(v, address, info).parking, q) <==> holds(v.parking, q)),
{
    lemma_wf_parts(v);
    lemma_processed_ready(v, v, address, info, 0, info.spec_min_seq() as int);
    let k = txn_position(v.txns, q);
    assert(v.txns[k].pointer() == q);
}

} // verus!
