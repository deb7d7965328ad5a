//! The secondary indices of the transaction store. Each holds keys that point
//! at a transaction by address and sequence number.

use crate::account_address::AccountAddress;
use crate::bytes::bytes_equal;
use crate::hash::HashValue;
use vstd::prelude::*;

verus! {

/// What points at a transaction: the sender's address and the sequence
/// number.
pub type TxnPointer = (AccountAddress, u64);

/// A key of an index: a pointer at a transaction, and the number by which
/// the index ranks it (a score, a time or a timeline id).
#[derive(Clone, Copy, Debug, PartialEq, Eq, Structural)]
pub struct IndexKey {
    pub rank: u64,
    pub address: AccountAddress,
    pub sequence_number: u64,
}

impl IndexKey {
    /// The transaction that the key points at.
    pub open spec fn pointer(self) -> TxnPointer {
        (self.address, self.sequence_number)
    }
}

/// Whether a key of `keys` points at `pointer`.
pub open spec fn holds(keys: Seq<IndexKey>, pointer: TxnPointer) -> bool {
    exists|i: int| 0 <= i < keys.len() && (#[trigger] keys[i]).pointer() == pointer
}

/// Whether no two keys of `keys` point at the same transaction.
pub open spec fn distinct(keys: Seq<IndexKey>) -> bool {
    forall|i: int, j: int|
        0 <= i < j < keys.len() ==> (#[trigger] keys[i]).pointer() != (#[trigger] keys[j]).pointer()
}

/// The place of the key that points at `pointer`, where there is one.
pub open spec fn position(keys: Seq<IndexKey>, pointer: TxnPointer) -> int {
    choose|i: int| 0 <= i < keys.len() && (#[trigger] keys[i]).pointer() == pointer
}

/// `keys` without the key that points at `pointer`; the keys that stay keep
/// their order. Where no key points at it, nothing changes.
pub open spec fn without(keys: Seq<IndexKey>, pointer: TxnPointer) -> Seq<IndexKey> {
    if holds(keys, pointer) {
        keys.remove(position(keys, pointer))
    } else {
        keys
    }
}

/// Taking one key out of distinct keys leaves distinct keys, none of which
/// points where the key did.
pub proof fn lemma_remove_distinct(keys: Seq<IndexKey>, i: int)
    requires
        distinct(keys),
        0 <= i < keys.len(),
    ensures
        distinct(keys.remove(i)),
        !holds(keys.remove(i), keys[i].pointer()),
{
    let r = keys.remove(i);
    assert forall|a: int, b: int| 0 <= a < b < r.len() implies (#[trigger] r[a]).pointer() != (
    #[trigger] r[b]).pointer() by {
        let a2 = if a < i {
            a
        } else {
            a + 1
        };
        let b2 = if b < i {
            b
        } else {
            b + 1
        };
        assert(r[a] == keys[a2] && r[b] == keys[b2]);
    }
    if holds(r, keys[i].pointer()) {
        let a = choose|a: int| 0 <= a < r.len() && (#[trigger] r[a]).pointer() == keys[i].pointer();
        let a2 = if a < i {
            a
        } else {
            a + 1
        };
        assert(r[a] == keys[a2]);
        if a2 < i {
            assert(keys[a2].pointer() != keys[i].pointer());
        } else {
            assert(keys[i].pointer() != keys[a2].pointer());
        }
    }
}

/// Taking one key out changes nothing for the other pointers.
pub proof fn lemma_remove_holds(keys: Seq<IndexKey>, i: int, q: TxnPointer)
    requires
        0 <= i < keys.len(),
        q != keys[i].pointer(),
    ensures
        holds(keys.remove(i), q) <==> holds(keys, q),
{
    let r = keys.remove(i);
    if holds(r, q) {
        let a = choose|a: int| 0 <= a < r.len() && (#[trigger] r[a]).pointer() == q;
        let a2 = if a < i {
            a
        } else {
            a + 1
        };
        assert(keys[a2].pointer() == q);
    }
    if holds(keys, q) {
        let a = choose|a: int| 0 <= a < keys.len() && (#[trigger] keys[a]).pointer() == q;
        let a2 = if a < i {
            a
        } else {
            a - 1
        };
        assert(r[a2].pointer() == q);
    }
}

/// Putting one key in adds its pointer and changes nothing for the others.
pub proof fn lemma_insert_holds(keys: Seq<IndexKey>, i: int, key: IndexKey, q: TxnPointer)
    requires
        0 <= i <= keys.len(),
    ensures
        holds(keys.insert(i, key), q) <==> (holds(keys, q) || q == key.pointer()),
{
    let r = keys.insert(i, key);
    if holds(r, q) && q != key.pointer() {
        let a = choose|a: int| 0 <= a < r.len() && (#[trigger] r[a]).pointer() == q;
        let a2 = if a < i {
            a
        } else {
            a - 1
        };
        assert(keys[a2].pointer() == q);
    }
    if holds(keys, q) {
        let a = choose|a: int| 0 <= a < keys.len() && (#[trigger] keys[a]).pointer() == q;
        let a2 = if a < i {
            a
        } else {
            a + 1
        };
        assert(r[a2].pointer() == q);
    }
    if q == key.pointer() {
        assert(r[i].pointer() == q);
    }
}

/// Putting a key in among distinct keys, none of which points where it does,
/// leaves distinct keys.
pub proof fn lemma_insert_distinct(keys: Seq<IndexKey>, i: int, key: IndexKey)
    requires
        distinct(keys),
        !holds(keys, key.pointer()),
        0 <= i <= keys.len(),
    ensures
        distinct(keys.insert(i, key)),
{
    let r = keys.insert(i, key);
    assert forall|a: int, b: int| 0 <= a < b < r.len() implies (#[trigger] r[a]).pointer() != (
    #[trigger] r[b]).pointer() by {
        let a2 = if a < i {
            a
        } else {
            a - 1
        };
        let b2 = if b < i {
            b
        } else {
            b - 1
        };
        if a == i {
            assert(r[b] == keys[b2]);
        } else if b == i {
            assert(r[a] == keys[a2]);
        } else {
            assert(r[a] == keys[a2] && r[b] == keys[b2]);
        }
    }
}

/// The place of the key that points at `pointer`, if there is one.
pub fn find(keys: &Vec<IndexKey>, address: AccountAddress, sequence_number: u64) -> (r: Option<
    usize,
>)
    ensures
        r is Some <==> holds(keys@, (address, sequence_number)),
        r is Some ==> r->Some_0 < keys@.len() && keys@[r->Some_0 as int].pointer() == (
            address,
            sequence_number,
        ),
        r is Some && distinct(keys@) ==> r->Some_0 == position(keys@, (address, sequence_number)),
{
    let mut i: usize = 0;
    while i < keys.len()
        invariant
            i <= keys.len(),
            forall|j: int| 0 <= j < i ==> (#[trigger] keys@[j]).pointer() != (address, sequence_number),
        decreases keys.len() - i,
    {
        if keys[i].address == address && keys[i].sequence_number == sequence_number {
            proof {
                let p = position(keys@, (address, sequence_number));
                if distinct(keys@) && p != i {
                    if p < i {
                        assert(keys@[p].pointer() != keys@[i as int].pointer());
                    } else {
                        assert(keys@[i as int].pointer() != keys@[p].pointer());
                    }
                }
            }
            return Some(i);
        }
        i += 1;
    }
    None
}

/// Takes out the key that points at the transaction, if there is one.
pub fn remove_pointer(keys: &mut Vec<IndexKey>, address: AccountAddress, sequence_number: u64)
    requires
        distinct(old(keys)@),
    ensures
        final(keys)@ == without(old(keys)@, (address, sequence_number)),
        distinct(final(keys)@),
        !holds(final(keys)@, (address, sequence_number)),
        forall|q: TxnPointer|
            q != (address, sequence_number) ==> (holds(final(keys)@, q) <==> holds(old(keys)@, q)),
        final(keys)@.len() <= old(keys)@.len(),
{
    match find(keys, address, sequence_number) {
        Some(i) => {
            keys.remove(i);
            proof {
                lemma_remove_distinct(old(keys)@, i as int);
                assert forall|q: TxnPointer| q != (address, sequence_number) implies (holds(
                    keys@,
                    q,
                ) <==> holds(old(keys)@, q)) by {
                    lemma_remove_holds(old(keys)@, i as int, q);
                }
            }
        },
        None => {},
    }
}

/// Whether a key of rank `rank` keeps its place before a key of rank `other`:
/// the higher rank goes first where the order is descending, the lower where
/// it is ascending, and of two equal ranks the one that came first.
pub open spec fn goes_before(rank: u64, other: u64, descending: bool) -> bool {
    if descending {
        rank >= other
    } else {
        rank <= other
    }
}

/// Whether the keys stand in the order of their ranks.
pub open spec fn ordered(keys: Seq<IndexKey>, descending: bool) -> bool {
    forall|i: int, j: int|
        0 <= i < j < keys.len() ==> goes_before(
            (#[trigger] keys[i]).rank,
            (#[trigger] keys[j]).rank,
            descending,
        )
}

/// Whether the first `n` keys, and no others, keep their place before a key
/// of rank `bound`.
pub open spec fn is_split(keys: Seq<IndexKey>, n: int, bound: u64, descending: bool) -> bool {
    &&& 0 <= n <= keys.len()
    &&& forall|i: int| 0 <= i < n ==> goes_before((#[trigger] keys[i]).rank, bound, descending)
    &&& forall|i: int| n <= i < keys.len() ==> !goes_before((#[trigger] keys[i]).rank, bound, descending)
}

/// The number of keys that keep their place before a key of rank `bound`.
pub open spec fn split_point(keys: Seq<IndexKey>, bound: u64, descending: bool) -> int {
    choose|n: int| is_split(keys, n, bound, descending)
}

/// There is one split only.
pub proof fn lemma_split_unique(keys: Seq<IndexKey>, n: int, bound: u64, descending: bool)
    requires
        is_split(keys, n, bound, descending),
    ensures
        split_point(keys, bound, descending) == n,
{
    let m = split_point(keys, bound, descending);
    if m < n {
        assert(goes_before(keys[m].rank, bound, descending));
    } else if n < m {
        assert(goes_before(keys[n].rank, bound, descending));
    }
}

fn ranks_before(rank: u64, other: u64, descending: bool) -> (r: bool)
    ensures
        r == goes_before(rank, other, descending),
{
    if descending {
        rank >= other
    } else {
        rank <= other
    }
}

/// Counts the keys that keep their place before a key of rank `bound`.
pub fn find_split(keys: &Vec<IndexKey>, bound: u64, descending: bool) -> (n: usize)
    requires
        ordered(keys@, descending),
    ensures
        is_split(keys@, n as int, bound, descending),
        n == split_point(keys@, bound, descending),
{
    let mut i: usize = 0;
    while i < keys.len() && ranks_before(keys[i].rank, bound, descending)
        invariant
            i <= keys.len(),
            forall|j: int| 0 <= j < i ==> goes_before((#[trigger] keys@[j]).rank, bound, descending),
        decreases keys.len() - i,
    {
        i += 1;
    }
    proof {
        assert forall|j: int| i <= j < keys@.len() implies !goes_before(
            (#[trigger] keys@[j]).rank,
            bound,
            descending,
        ) by {
            if j > i {
                assert(goes_before(keys@[i as int].rank, keys@[j].rank, descending));
            }
        }
        lemma_split_unique(keys@, i as int, bound, descending);
    }
    i
}

/// Putting a key in at the split of its own rank keeps the order.
pub proof fn lemma_ordered_insert(keys: Seq<IndexKey>, key: IndexKey, descending: bool)
    requires
        ordered(keys, descending),
    ensures
        ordered(keys.insert(split_point(keys, key.rank, descending), key), descending),
        is_split(keys, split_point(keys, key.rank, descending), key.rank, descending),
{
    assert(is_split(keys, 0, key.rank, descending) || exists|n: int|
        is_split(keys, n, key.rank, descending)) by {
        lemma_split_exists(keys, key.rank, descending);
    }
    let n = split_point(keys, key.rank, descending);
    let r = keys.insert(n, key);
    assert forall|i: int, j: int| 0 <= i < j < r.len() implies goes_before(
        (#[trigger] r[i]).rank,
        (#[trigger] r[j]).rank,
        descending,
    ) by {
        let i2 = if i < n {
            i
        } else {
            i - 1
        };
        let j2 = if j < n {
            j
        } else {
            j - 1
        };
        if i == n {
            assert(r[j] == keys[j2]);
            assert(!goes_before(keys[j2].rank, key.rank, descending));
        } else if j == n {
            assert(r[i] == keys[i2]);
        } else {
            assert(r[i] == keys[i2] && r[j] == keys[j2]);
        }
    }
}

/// Ordered keys have a split for every rank.
pub proof fn lemma_split_exists(keys: Seq<IndexKey>, bound: u64, descending: bool)
    requires
        ordered(keys, descending),
    ensures
        exists|n: int| is_split(keys, n, bound, descending),
    decreases keys.len(),
{
    if keys.len() == 0 {
        assert(is_split(keys, 0, bound, descending));
    } else if !goes_before(keys[0].rank, bound, descending) {
        assert forall|i: int| 0 <= i < keys.len() implies !goes_before(
            (#[trigger] keys[i]).rank,
            bound,
            descending,
        ) by {
            if i > 0 {
                assert(goes_before(keys[0].rank, keys[i].rank, descending));
            }
        }
        assert(is_split(keys, 0, bound, descending));
    } else {
        let rest = keys.drop_first();
        assert(ordered(rest, descending)) by {
            assert forall|i: int, j: int| 0 <= i < j < rest.len() implies goes_before(
                (#[trigger] rest[i]).rank,
                (#[trigger] rest[j]).rank,
                descending,
            ) by {
                assert(rest[i] == keys[i + 1] && rest[j] == keys[j + 1]);
            }
        }
        lemma_split_exists(rest, bound, descending);
        let m = choose|m: int| is_split(rest, m, bound, descending);
        assert(is_split(keys, m + 1, bound, descending)) by {
            assert forall|i: int| 0 <= i < m + 1 implies goes_before(
                (#[trigger] keys[i]).rank,
                bound,
                descending,
            ) by {
                if i > 0 {
                    assert(keys[i] == rest[i - 1]);
                }
            }
            assert forall|i: int| m + 1 <= i < keys.len() implies !goes_before(
                (#[trigger] keys[i]).rank,
                bound,
                descending,
            ) by {
                assert(keys[i] == rest[i - 1]);
            }
        }
    }
}

/// Taking a key out keeps the order.
pub proof fn lemma_ordered_remove(keys: Seq<IndexKey>, i: int, descending: bool)
    requires
        ordered(keys, descending),
        0 <= i < keys.len(),
    ensures
        ordered(keys.remove(i), descending),
{
    let r = keys.remove(i);
    assert forall|a: int, b: int| 0 <= a < b < r.len() implies goes_before(
        (#[trigger] r[a]).rank,
        (#[trigger] r[b]).rank,
        descending,
    ) by {
        let a2 = if a < i {
            a
        } else {
            a + 1
        };
        let b2 = if b < i {
            b
        } else {
            b + 1
        };
        assert(r[a] == keys[a2] && r[b] == keys[b2]);
    }
}

/// `keys` with `key` put in at the split of its rank, unless a key points
/// where it does already: then nothing changes.
pub open spec fn with_ranked(keys: Seq<IndexKey>, key: IndexKey, descending: bool) -> Seq<IndexKey> {
    if holds(keys, key.pointer()) {
        keys
    } else {
        keys.insert(split_point(keys, key.rank, descending), key)
    }
}

/// What is known of `with_ranked`: the keys stay distinct and in order, and
/// the new key's pointer is among them beside the old ones.
#[verifier::rlimit(40)]
pub proof fn lemma_with_ranked(keys: Seq<IndexKey>, key: IndexKey, descending: bool)
    requires
        distinct(keys),
        ordered(keys, descending),
    ensures
        distinct(with_ranked(keys, key, descending)),
        ordered(with_ranked(keys, key, descending), descending),
        forall|q: TxnPointer|
            holds(with_ranked(keys, key, descending), q) <==> (holds(keys, q) || q == key.pointer()),
        forall|k: IndexKey|
            keys.contains(k) ==> with_ranked(keys, key, descending).contains(k),
        !holds(keys, key.pointer()) ==> with_ranked(keys, key, descending).contains(key),
{
    if !holds(keys, key.pointer()) {
        lemma_ordered_insert(keys, key, descending);
        let n = split_point(keys, key.rank, descending);
        lemma_insert_distinct(keys, n, key);
        let r = keys.insert(n, key);
        assert forall|q: TxnPointer| holds(r, q) <==> (holds(keys, q) || q == key.pointer()) by {
            lemma_insert_holds(keys, n, key, q);
        }
        assert forall|k: IndexKey| keys.contains(k) implies r.contains(k) by {
            let i = choose|i: int| 0 <= i < keys.len() && keys[i] == k;
            let i2 = if i < n {
                i
            } else {
                i + 1
            };
            assert(r[i2] == k);
        }
        assert(r[n] == key);
    }
}

/// What is known of `without`: the keys stay distinct and in order, the
/// pointer is gone, and every other key stays.
#[verifier::rlimit(40)]
pub proof fn lemma_without(keys: Seq<IndexKey>, pointer: TxnPointer, descending: bool)
    requires
        distinct(keys),
    ensures
        distinct(without(keys, pointer)),
        ordered(keys, descending) ==> ordered(without(keys, pointer), descending),
        !holds(without(keys, pointer), pointer),
        forall|q: TxnPointer| q != pointer ==> (holds(without(keys, pointer), q) <==> holds(keys, q)),
        forall|k: IndexKey|
            k.pointer() != pointer && keys.contains(k) ==> without(keys, pointer).contains(k),
        forall|k: IndexKey| without(keys, pointer).contains(k) ==> keys.contains(k),
{
    if holds(keys, pointer) {
        let p = position(keys, pointer);
        let r = keys.remove(p);
        lemma_remove_distinct(keys, p);
        if ordered(keys, descending) {
            lemma_ordered_remove(keys, p, descending);
        }
        assert forall|q: TxnPointer| q != pointer implies (holds(r, q) <==> holds(keys, q)) by {
            lemma_remove_holds(keys, p, q);
        }
        assert forall|k: IndexKey| k.pointer() != pointer && keys.contains(k) implies r.contains(
            k,
        ) by {
            let i = choose|i: int| 0 <= i < keys.len() && keys[i] == k;
            let i2 = if i < p {
                i
            } else {
                i - 1
            };
            assert(r[i2] == k);
        }
        assert forall|k: IndexKey| r.contains(k) implies keys.contains(k) by {
            let i = choose|i: int| 0 <= i < r.len() && r[i] == k;
            let i2 = if i < p {
                i
            } else {
                i + 1
            };
            assert(keys[i2] == k);
        }
    }
}

/// Puts a key in at the split of its rank, unless a key points where it
/// does already.
pub fn insert_ranked(keys: &mut Vec<IndexKey>, key: IndexKey, descending: bool)
    requires
        distinct(old(keys)@),
        ordered(old(keys)@, descending),
    ensures
        final(keys)@ == with_ranked(old(keys)@, key, descending),
        distinct(final(keys)@),
        ordered(final(keys)@, descending),
        forall|q: TxnPointer|
            holds(final(keys)@, q) <==> (holds(old(keys)@, q) || q == key.pointer()),
{
    if find(keys, key.address, key.sequence_number).is_some() {
        return ;
    }
    let n = find_split(keys, key.rank, descending);
    keys.insert(n, key);
    proof {
        lemma_ordered_insert(old(keys)@, key, descending);
        lemma_insert_distinct(old(keys)@, n as int, key);
        assert forall|q: TxnPointer| holds(keys@, q) <==> (holds(old(keys)@, q) || q
            == key.pointer()) by {
            lemma_insert_holds(old(keys)@, n as int, key, q);
        }
    }
}

/// Takes out the key that points at the transaction, keeping the order.
pub fn remove_ranked(
    keys: &mut Vec<IndexKey>,
    address: AccountAddress,
    sequence_number: u64,
    descending: bool,
)
    requires
        distinct(old(keys)@),
        ordered(old(keys)@, descending),
    ensures
        final(keys)@ == without(old(keys)@, (address, sequence_number)),
        distinct(final(keys)@),
        ordered(final(keys)@, descending),
        !holds(final(keys)@, (address, sequence_number)),
        forall|q: TxnPointer|
            q != (address, sequence_number) ==> (holds(final(keys)@, q) <==> holds(old(keys)@, q)),
        final(keys)@.len() <= old(keys)@.len(),
{
    proof {
        if holds(keys@, (address, sequence_number)) {
            lemma_ordered_remove(keys@, position(keys@, (address, sequence_number)), descending);
        }
    }
    remove_pointer(keys, address, sequence_number);
}

/// The transactions that are ready for a block, the highest ranking score
/// first; of two with the same score, the one that was put in first.
#[derive(Debug)]
pub struct PriorityIndex {
    pub keys: Vec<IndexKey>,
}

impl PriorityIndex {
    /// No transaction is pointed at twice, and the scores descend.
    pub open spec fn wf(&self) -> bool {
        distinct(self.keys@) && ordered(self.keys@, true)
    }

    /// Whether the index points at the transaction.
    pub open spec fn spec_contains(&self, pointer: TxnPointer) -> bool {
        holds(self.keys@, pointer)
    }

    pub fn new() -> (r: Self)
        ensures
            r.wf(),
            r.keys@.len() == 0,
    {
        PriorityIndex { keys: Vec::new() }
    }

    /// Puts the transaction in behind those of its score or a higher one.
    /// One that is in already keeps its place.
    pub fn insert(&mut self, ranking_score: u64, address: AccountAddress, sequence_number: u64)
        requires
            old(self).wf(),
        ensures
            final(self).wf(),
            final(self).keys@ == with_ranked(
                old(self).keys@,
                IndexKey { rank: ranking_score, address, sequence_number },
                true,
            ),
            forall|q: TxnPointer|
                final(self).spec_contains(q) <==> (old(self).spec_contains(q) || q == (
                    address,
                    sequence_number,
                )),
    {
        insert_ranked(&mut self.keys, IndexKey { rank: ranking_score, address, sequence_number }, true);
    }

    /// Takes the transaction out; the others keep their order.
    pub fn remove(&mut self, address: AccountAddress, sequence_number: u64)
        requires
            old(self).wf(),
        ensures
            final(self).wf(),
            final(self).keys@ == without(old(self).keys@, (address, sequence_number)),
            !final(self).spec_contains((address, sequence_number)),
            forall|q: TxnPointer|
                q != (address, sequence_number) ==> (final(self).spec_contains(q) <==> old(
                    self,
                ).spec_contains(q)),
    {
        remove_ranked(&mut self.keys, address, sequence_number, true);
    }

    pub fn contains(&self, address: AccountAddress, sequence_number: u64) -> (r: bool)
        ensures
            r == self.spec_contains((address, sequence_number)),
    {
        find(&self.keys, address, sequence_number).is_some()
    }

    pub fn size(&self) -> (r: usize)
        ensures
            r == self.keys@.len(),
    {
        self.keys.len()
    }

    /// The key at place `i` in the order of priority.
    pub fn get(&self, i: usize) -> (r: IndexKey)
        requires
            i < self.keys@.len(),
        ensures
            r == self.keys@[i as int],
    {
        self.keys[i]
    }
}

/// Transactions by the time at which they expire, the earliest first.
#[derive(Debug)]
pub struct TTLIndex {
    pub keys: Vec<IndexKey>,
}

impl TTLIndex {
    /// No transaction is pointed at twice, and the times ascend.
    pub open spec fn wf(&self) -> bool {
        distinct(self.keys@) && ordered(self.keys@, false)
    }

    /// Whether the index points at the transaction.
    pub open spec fn spec_contains(&self, pointer: TxnPointer) -> bool {
        holds(self.keys@, pointer)
    }

    pub fn new() -> (r: Self)
        ensures
            r.wf(),
            r.keys@.len() == 0,
    {
        TTLIndex { keys: Vec::new() }
    }

    /// Puts the transaction in behind those that expire no later. One that
    /// is in already keeps its place.
    pub fn insert(&mut self, expiration_time: u64, address: AccountAddress, sequence_number: u64)
        requires
            old(self).wf(),
        ensures
            final(self).wf(),
            final(self).keys@ == with_ranked(
                old(self).keys@,
                IndexKey { rank: expiration_time, address, sequence_number },
                false,
            ),
            forall|q: TxnPointer|
                final(self).spec_contains(q) <==> (old(self).spec_contains(q) || q == (
                    address,
                    sequence_number,
                )),
    {
        insert_ranked(
            &mut self.keys,
            IndexKey { rank: expiration_time, address, sequence_number },
            false,
        );
    }

    /// Takes the transaction out; the others keep their order.
    pub fn remove(&mut self, address: AccountAddress, sequence_number: u64)
        requires
            old(self).wf(),
        ensures
            final(self).wf(),
            final(self).keys@ == without(old(self).keys@, (address, sequence_number)),
            !final(self).spec_contains((address, sequence_number)),
            forall|q: TxnPointer|
                q != (address, sequence_number) ==> (final(self).spec_contains(q) <==> old(
                    self,
                ).spec_contains(q)),
    {
        remove_ranked(&mut self.keys, address, sequence_number, false);
    }

    /// The keys that are expired at `now`: those whose time is `now` or
    /// earlier. They stand first in the index.
    pub fn expired(&self, now: u64) -> (r: Vec<IndexKey>)
        requires
            self.wf(),
        ensures
            r@ == self.keys@.take(split_point(self.keys@, now, false)),
            is_split(self.keys@, r@.len() as int, now, false),
            forall|q: TxnPointer|
                holds(r@, q) <==> exists|i: int|
                    0 <= i < self.keys@.len() && (#[trigger] self.keys@[i]).pointer() == q
                        && self.keys@[i].rank <= now,
    {
        let n = find_split(&self.keys, now, false);
        let mut r: Vec<IndexKey> = Vec::new();
        let mut i: usize = 0;
        while i < n
            invariant
                i <= n <= self.keys@.len(),
                r@ == self.keys@.take(i as int),
            decreases n - i,
        {
            r.push(self.keys[i]);
            i += 1;
            assert(r@ =~= self.keys@.take(i as int));
        }
        proof {
            assert forall|q: TxnPointer| holds(r@, q) <==> exists|i: int|
                0 <= i < self.keys@.len() && (#[trigger] self.keys@[i]).pointer() == q
                    && self.keys@[i].rank <= now by {
                if holds(r@, q) {
                    let a = choose|a: int| 0 <= a < r@.len() && (#[trigger] r@[a]).pointer() == q;
                    assert(self.keys@[a].pointer() == q);
                    assert(goes_before(self.keys@[a].rank, now, false));
                }
                if exists|i: int|
                    0 <= i < self.keys@.len() && (#[trigger] self.keys@[i]).pointer() == q
                        && self.keys@[i].rank <= now {
                    let a = choose|a: int|
                        0 <= a < self.keys@.len() && (#[trigger] self.keys@[a]).pointer() == q
                            && self.keys@[a].rank <= now;
                    if a >= n {
                        assert(!goes_before(self.keys@[a].rank, now, false));
                    }
                    assert(r@[a].pointer() == q);
                }
            }
        }
        r
    }

    pub fn size(&self) -> (r: usize)
        ensures
            r == self.keys@.len(),
    {
        self.keys.len()
    }
}

/// The keys of a timeline with ids above `timeline_id`, in the order of their
/// ids, but no more than `count` of them.
pub open spec fn read_keys(keys: Seq<IndexKey>, timeline_id: u64, count: usize) -> Seq<IndexKey> {
    let rest = keys.skip(split_point(keys, timeline_id, false));
    if count < rest.len() {
        rest.take(count as int)
    } else {
        rest
    }
}

/// The keys of a timeline with ids above `start_id` and up to `end_id`, in
/// the order of their ids.
pub open spec fn range_keys(keys: Seq<IndexKey>, start_id: u64, end_id: u64) -> Seq<IndexKey> {
    let from = split_point(keys, start_id, false);
    let to = split_point(keys, end_id, false);
    if from <= to {
        keys.subrange(from, to)
    } else {
        Seq::<IndexKey>::empty()
    }
}

/// The transactions that became ready, in the order in which they did. Each
/// gets a timeline id of its own from a counter that only rises.
#[derive(Debug)]
pub struct TimelineIndex {
    pub keys: Vec<IndexKey>,
    pub next_id: u64,
}

impl TimelineIndex {
    /// No transaction is pointed at twice, the ids ascend and are distinct,
    /// and every id was handed out already.
    pub open spec fn wf(&self) -> bool {
        &&& distinct(self.keys@)
        &&& ordered(self.keys@, false)
        &&& self.next_id >= 1
        &&& forall|i: int| 0 <= i < self.keys@.len() ==> 1 <= (#[trigger] self.keys@[i]).rank < self.next_id
        &&& forall|i: int, j: int|
            0 <= i < j < self.keys@.len() ==> (#[trigger] self.keys@[i]).rank != (
            #[trigger] self.keys@[j]).rank
    }

    /// Whether the index points at the transaction.
    pub open spec fn spec_contains(&self, pointer: TxnPointer) -> bool {
        holds(self.keys@, pointer)
    }

    pub fn new() -> (r: Self)
        ensures
            r.wf(),
            r.keys@.len() == 0,
            r.next_id == 1,
    {
        TimelineIndex { keys: Vec::new(), next_id: 1 }
    }

    /// Whether `insert` puts the transaction in: the index does not point at
    /// it yet, and the counter has an id left.
    pub open spec fn accepts(&self, pointer: TxnPointer) -> bool {
        !self.spec_contains(pointer) && self.next_id < u64::MAX
    }

    /// Puts the transaction in at the end, under the next id, and returns
    /// the id. Where the index points at the transaction already, or where
    /// the counter is used up, nothing changes and nothing is returned.
    pub fn insert(&mut self, address: AccountAddress, sequence_number: u64) -> (r: Option<u64>)
        requires
            old(self).wf(),
        ensures
            final(self).wf(),
            r is Some <==> old(self).accepts((address, sequence_number)),
            r is Some ==> r->Some_0 == old(self).next_id && final(self).next_id == old(self).next_id
                + 1 && final(self).keys@ == old(self).keys@.push(
                IndexKey { rank: old(self).next_id, address, sequence_number },
            ),
            r is None ==> *final(self) == *old(self),
            forall|q: TxnPointer|
                final(self).spec_contains(q) <==> (old(self).spec_contains(q) || (r is Some && q
                    == (address, sequence_number))),
    {
        if self.next_id == 0xffff_ffff_ffff_ffff || find(&self.keys, address, sequence_number).is_some() {
            return None;
        }
        let id = self.next_id;
        let key = IndexKey { rank: id, address, sequence_number };
        self.keys.push(key);
        self.next_id = id + 1;
        proof {
            let old_keys = old(self).keys@;
            assert(self.keys@ =~= old_keys.insert(old_keys.len() as int, key));
            lemma_insert_distinct(old_keys, old_keys.len() as int, key);
            assert forall|q: TxnPointer| holds(self.keys@, q) <==> (holds(old_keys, q) || q
                == key.pointer()) by {
                lemma_insert_holds(old_keys, old_keys.len() as int, key, q);
            }
        }
        Some(id)
    }

    /// Takes the transaction out; the others keep their order and ids.
    pub fn remove(&mut self, address: AccountAddress, sequence_number: u64)
        requires
            old(self).wf(),
        ensures
            final(self).wf(),
            final(self).next_id == old(self).next_id,
            final(self).keys@ == without(old(self).keys@, (address, sequence_number)),
            !final(self).spec_contains((address, sequence_number)),
            forall|q: TxnPointer|
                q != (address, sequence_number) ==> (final(self).spec_contains(q) <==> old(
                    self,
                ).spec_contains(q)),
    {
        proof {
            if holds(self.keys@, (address, sequence_number)) {
                let p = position(self.keys@, (address, sequence_number));
                let r = self.keys@.remove(p);
                assert forall|i: int| 0 <= i < r.len() implies 1 <= (#[trigger] r[i]).rank
                    < self.next_id by {
                    let i2 = if i < p {
                        i
                    } else {
                        i + 1
                    };
                    assert(r[i] == self.keys@[i2]);
                }
                assert forall|i: int, j: int| 0 <= i < j < r.len() implies (#[trigger] r[i]).rank != (
                #[trigger] r[j]).rank by {
                    let i2 = if i < p {
                        i
                    } else {
                        i + 1
                    };
                    let j2 = if j < p {
                        j
                    } else {
                        j + 1
                    };
                    assert(r[i] == self.keys@[i2] && r[j] == self.keys@[j2]);
                }
            }
        }
        remove_ranked(&mut self.keys, address, sequence_number, false);
    }

    /// The keys with ids above `timeline_id`, in the order of their ids, but
    /// no more than `count` of them.
    pub fn read_timeline(&self, timeline_id: u64, count: usize) -> (r: Vec<IndexKey>)
        requires
            self.wf(),
        ensures
            r@ == read_keys(self.keys@, timeline_id, count),
            forall|k: int| 0 <= k < r@.len() ==> self.keys@.contains(#[trigger] r@[k]),
            forall|k: int| 0 <= k < r@.len() ==> (#[trigger] r@[k]).rank > timeline_id,
    {
        let start = find_split(&self.keys, timeline_id, false);
        let mut r: Vec<IndexKey> = Vec::new();
        let mut i: usize = start;
        while i < self.keys.len() && r.len() < count
            invariant
                start <= i <= self.keys@.len(),
                r@.len() == i - start,
                r@.len() <= count,
                start == split_point(self.keys@, timeline_id, false),
                is_split(self.keys@, start as int, timeline_id, false),
                r@ == self.keys@.subrange(start as int, i as int),
            decreases self.keys.len() - i,
        {
            r.push(self.keys[i]);
            i += 1;
            assert(r@ =~= self.keys@.subrange(start as int, i as int));
        }
        assert(r@ =~= read_keys(self.keys@, timeline_id, count));
        assert forall|k: int| 0 <= k < r@.len() implies self.keys@.contains(#[trigger] r@[k]) by {
            assert(self.keys@[start + k] == r@[k]);
        }
        assert forall|k: int| 0 <= k < r@.len() implies (#[trigger] r@[k]).rank > timeline_id by {
            assert(self.keys@[start + k] == r@[k]);
            assert(!goes_before(self.keys@[start + k].rank, timeline_id, false));
        }
        r
    }

    /// The keys with ids above `start_id` and up to `end_id`, in the order
    /// of their ids.
    pub fn timeline_range(&self, start_id: u64, end_id: u64) -> (r: Vec<IndexKey>)
        requires
            self.wf(),
        ensures
            r@ == range_keys(self.keys@, start_id, end_id),
            forall|k: int| 0 <= k < r@.len() ==> self.keys@.contains(#[trigger] r@[k]),
    {
        let from = find_split(&self.keys, start_id, false);
        let to = find_split(&self.keys, end_id, false);
        let mut r: Vec<IndexKey> = Vec::new();
        let mut i: usize = from;
        while i < to
            invariant
                from <= i,
                from <= to ==> i <= to,
                from > to ==> i == from,
                from <= self.keys@.len(),
                to <= self.keys@.len(),
                from == split_point(self.keys@, start_id, false),
                to == split_point(self.keys@, end_id, false),
                r@ == self.keys@.subrange(from as int, i as int),
            decreases to - i,
        {
            r.push(self.keys[i]);
            i += 1;
            assert(r@ =~= self.keys@.subrange(from as int, i as int));
        }
        assert(r@ =~= range_keys(self.keys@, start_id, end_id));
        assert forall|k: int| 0 <= k < r@.len() implies self.keys@.contains(#[trigger] r@[k]) by {
            assert(self.keys@[from + k] == r@[k]);
        }
        r
    }

    pub fn size(&self) -> (r: usize)
        ensures
            r == self.keys@.len(),
    {
        self.keys.len()
    }
}

/// The transactions that cannot go into the next block, in the order in
/// which they were parked.
#[derive(Debug)]
pub struct ParkingLotIndex {
    pub keys: Vec<IndexKey>,
}

impl ParkingLotIndex {
    /// No transaction is pointed at twice.
    pub open spec fn wf(&self) -> bool {
        distinct(self.keys@)
    }

    /// Whether the index points at the transaction.
    pub open spec fn spec_contains(&self, pointer: TxnPointer) -> bool {
        holds(self.keys@, pointer)
    }

    pub fn new() -> (r: Self)
        ensures
            r.wf(),
            r.keys@.len() == 0,
    {
        ParkingLotIndex { keys: Vec::new() }
    }

    /// Parks the transaction at the end. One that is parked already keeps
    /// its place.
    pub fn insert(&mut self, address: AccountAddress, sequence_number: u64)
        requires
            old(self).wf(),
        ensures
            final(self).wf(),
            old(self).spec_contains((address, sequence_number)) ==> final(self).keys@ == old(
                self,
            ).keys@,
            !old(self).spec_contains((address, sequence_number)) ==> final(self).keys@ == old(
                self,
            ).keys@.push(IndexKey { rank: 0, address, sequence_number }),
            forall|q: TxnPointer|
                final(self).spec_contains(q) <==> (old(self).spec_contains(q) || q == (
                    address,
                    sequence_number,
                )),
    {
        if find(&self.keys, address, sequence_number).is_some() {
            return ;
        }
        let key = IndexKey { rank: 0, address, sequence_number };
        self.keys.push(key);
        proof {
            let old_keys = old(self).keys@;
            assert(self.keys@ =~= old_keys.insert(old_keys.len() as int, key));
            lemma_insert_distinct(old_keys, old_keys.len() as int, key);
            assert forall|q: TxnPointer| holds(self.keys@, q) <==> (holds(old_keys, q) || q
                == key.pointer()) by {
                lemma_insert_holds(old_keys, old_keys.len() as int, key, q);
            }
        }
    }

    /// Takes the transaction out; the others keep their order.
    pub fn remove(&mut self, address: AccountAddress, sequence_number: u64)
        requires
            old(self).wf(),
        ensures
            final(self).wf(),
            final(self).keys@ == without(old(self).keys@, (address, sequence_number)),
            !final(self).spec_contains((address, sequence_number)),
            forall|q: TxnPointer|
                q != (address, sequence_number) ==> (final(self).spec_contains(q) <==> old(
                    self,
                ).spec_contains(q)),
    {
        remove_pointer(&mut self.keys, address, sequence_number);
    }

    pub fn contains(&self, address: AccountAddress, sequence_number: u64) -> (r: bool)
        ensures
            r == self.spec_contains((address, sequence_number)),
    {
        find(&self.keys, address, sequence_number).is_some()
    }

    /// The transaction to evict when room is needed: the one that was parked
    /// last.
    pub fn get_poppable(&self) -> (r: Option<TxnPointer>)
        ensures
            r is Some <==> self.keys@.len() > 0,
            r is Some ==> r->Some_0 == self.keys@.last().pointer() && self.spec_contains(r->Some_0),
    {
        if self.keys.len() == 0 {
            None
        } else {
            let key = self.keys[self.keys.len() - 1];
            assert(self.keys@[self.keys@.len() - 1].pointer() == key.pointer());
            Some((key.address, key.sequence_number))
        }
    }

    pub fn size(&self) -> (r: usize)
        ensures
            r == self.keys@.len(),
    {
        self.keys.len()
    }
}

/// An entry of the hash index: the committed hash of a transaction, and the
/// transaction.
#[derive(Clone, Copy, Debug)]
pub struct HashEntry {
    pub hash: HashValue,
    pub address: AccountAddress,
    pub sequence_number: u64,
}

/// What the hash index holds, as plain values: hashes with the transactions
/// that they belong to.
pub type HashPairs = Seq<(Seq<u8>, TxnPointer)>;

/// Whether a pair of `pairs` points at `pointer`.
pub open spec fn hash_holds(pairs: HashPairs, pointer: TxnPointer) -> bool {
    exists|i: int| 0 <= i < pairs.len() && (#[trigger] pairs[i]).1 == pointer
}

/// Whether no two pairs point at the same transaction.
pub open spec fn hash_distinct(pairs: HashPairs) -> bool {
    forall|i: int, j: int| 0 <= i < j < pairs.len() ==> (#[trigger] pairs[i]).1 != (#[trigger] pairs[j]).1
}

/// The place of the pair that points at `pointer`, where there is one.
pub open spec fn hash_position(pairs: HashPairs, pointer: TxnPointer) -> int {
    choose|i: int| 0 <= i < pairs.len() && (#[trigger] pairs[i]).1 == pointer
}

/// `pairs` without the pair that points at `pointer`.
pub open spec fn hash_without(pairs: HashPairs, pointer: TxnPointer) -> HashPairs {
    if hash_holds(pairs, pointer) {
        pairs.remove(hash_position(pairs, pointer))
    } else {
        pairs
    }
}

/// `pairs` with one more pair at the end, unless a pair points at the
/// transaction already.
pub open spec fn hash_with(pairs: HashPairs, hash: Seq<u8>, pointer: TxnPointer) -> HashPairs {
    if hash_holds(pairs, pointer) {
        pairs
    } else {
        pairs.push((hash, pointer))
    }
}

/// Whether a pair of `pairs` has the hash `hash`.
pub open spec fn hash_known(pairs: HashPairs, hash: Seq<u8>) -> bool {
    exists|i: int| 0 <= i < pairs.len() && (#[trigger] pairs[i]).0 == hash
}

/// The transaction of the first pair with the hash `hash`.
pub open spec fn hash_lookup(pairs: HashPairs, hash: Seq<u8>) -> Option<TxnPointer>
    decreases pairs.len(),
{
    if pairs.len() == 0 {
        None
    } else if pairs[0].0 == hash {
        Some(pairs[0].1)
    } else {
        hash_lookup(pairs.drop_first(), hash)
    }
}

/// What is known of `hash_with`.
pub proof fn lemma_hash_with(pairs: HashPairs, hash: Seq<u8>, pointer: TxnPointer)
    requires
        hash_distinct(pairs),
    ensures
        hash_distinct(hash_with(pairs, hash, pointer)),
        forall|q: TxnPointer|
            hash_holds(hash_with(pairs, hash, pointer), q) <==> (hash_holds(pairs, q) || q == pointer),
        forall|e: (Seq<u8>, TxnPointer)|
            pairs.contains(e) ==> hash_with(pairs, hash, pointer).contains(e),
        !hash_holds(pairs, pointer) ==> hash_with(pairs, hash, pointer).contains((hash, pointer)),
{
    let r = hash_with(pairs, hash, pointer);
    if !hash_holds(pairs, pointer) {
        assert(r[pairs.len() as int] == (hash, pointer));
        assert forall|i: int, j: int| 0 <= i < j < r.len() implies (#[trigger] r[i]).1 != (
        #[trigger] r[j]).1 by {
            if j == pairs.len() {
                assert(pairs[i].1 != pointer);
            } else {
                assert(r[i] == pairs[i] && r[j] == pairs[j]);
            }
        }
        assert forall|q: TxnPointer| hash_holds(r, q) <==> (hash_holds(pairs, q) || q == pointer) by {
            if hash_holds(r, q) {
                let i = choose|i: int| 0 <= i < r.len() && (#[trigger] r[i]).1 == q;
                if i < pairs.len() {
                    assert(pairs[i].1 == q);
                }
            }
            if hash_holds(pairs, q) {
                let i = choose|i: int| 0 <= i < pairs.len() && (#[trigger] pairs[i]).1 == q;
                assert(r[i].1 == q);
            }
        }
        assert forall|e: (Seq<u8>, TxnPointer)| pairs.contains(e) implies r.contains(e) by {
            let i = choose|i: int| 0 <= i < pairs.len() && pairs[i] == e;
            assert(r[i] == e);
        }
    }
}

/// What is known of `hash_without`.
#[verifier::rlimit(40)]
pub proof fn lemma_hash_without(pairs: HashPairs, pointer: TxnPointer)
    requires
        hash_distinct(pairs),
    ensures
        hash_distinct(hash_without(pairs, pointer)),
        !hash_holds(hash_without(pairs, pointer), pointer),
        forall|q: TxnPointer|
            q != pointer ==> (hash_holds(hash_without(pairs, pointer), q) <==> hash_holds(pairs, q)),
        forall|e: (Seq<u8>, TxnPointer)|
            e.1 != pointer && pairs.contains(e) ==> hash_without(pairs, pointer).contains(e),
{
    if hash_holds(pairs, pointer) {
        let p = hash_position(pairs, pointer);
        let r = pairs.remove(p);
        assert forall|i: int, j: int| 0 <= i < j < r.len() implies (#[trigger] r[i]).1 != (
        #[trigger] r[j]).1 by {
            let i2 = if i < p {
                i
            } else {
                i + 1
            };
            let j2 = if j < p {
                j
            } else {
                j + 1
            };
            assert(r[i] == pairs[i2] && r[j] == pairs[j2]);
        }
        if hash_holds(r, pointer) {
            let i = choose|i: int| 0 <= i < r.len() && (#[trigger] r[i]).1 == pointer;
            let i2 = if i < p {
                i
            } else {
                i + 1
            };
            assert(r[i] == pairs[i2]);
            if i2 < p {
                assert(pairs[i2].1 != pairs[p].1);
            } else {
                assert(pairs[p].1 != pairs[i2].1);
            }
        }
        assert forall|q: TxnPointer| q != pointer implies (hash_holds(r, q) <==> hash_holds(
            pairs,
            q,
        )) by {
            if hash_holds(r, q) {
                let i = choose|i: int| 0 <= i < r.len() && (#[trigger] r[i]).1 == q;
                let i2 = if i < p {
                    i
                } else {
                    i + 1
                };
                assert(pairs[i2].1 == q);
            }
            if hash_holds(pairs, q) {
                let i = choose|i: int| 0 <= i < pairs.len() && (#[trigger] pairs[i]).1 == q;
                let i2 = if i < p {
                    i
                } else {
                    i - 1
                };
                assert(r[i2].1 == q);
            }
        }
        assert forall|e: (Seq<u8>, TxnPointer)| e.1 != pointer && pairs.contains(e) implies r.contains(
            e,
        ) by {
            let i = choose|i: int| 0 <= i < pairs.len() && pairs[i] == e;
            let i2 = if i < p {
                i
            } else {
                i - 1
            };
            assert(r[i2] == e);
        }
    }
}

/// A lookup finds a transaction that the index holds under the hash, and it
/// finds one wherever the index holds any.
pub proof fn lemma_hash_lookup(pairs: HashPairs, hash: Seq<u8>)
    ensures
        hash_lookup(pairs, hash) is Some <==> hash_known(pairs, hash),
        hash_lookup(pairs, hash) is Some ==> pairs.contains((hash, hash_lookup(pairs, hash)->Some_0)),
    decreases pairs.len(),
{
    if pairs.len() == 0 {
    } else if pairs[0].0 == hash {
        assert(pairs[0] == (hash, pairs[0].1));
    } else {
        let rest = pairs.drop_first();
        lemma_hash_lookup(rest, hash);
        if hash_known(rest, hash) {
            let i = choose|i: int| 0 <= i < rest.len() && (#[trigger] rest[i]).0 == hash;
            assert(pairs[i + 1].0 == hash);
        }
        if hash_known(pairs, hash) {
            let i = choose|i: int| 0 <= i < pairs.len() && (#[trigger] pairs[i]).0 == hash;
            assert(rest[i - 1].0 == hash);
        }
        if hash_lookup(pairs, hash) is Some {
            let e = (hash, hash_lookup(pairs, hash)->Some_0);
            let i = choose|i: int| 0 <= i < rest.len() && rest[i] == e;
            assert(pairs[i + 1] == e);
        }
    }
}

/// Transactions by their committed hash.
#[derive(Debug)]
pub struct HashIndex {
    pub entries: Vec<HashEntry>,
}

impl View for HashIndex {
    type V = HashPairs;

    open spec fn view(&self) -> HashPairs {
        Seq::new(
            self.entries@.len(),
            |i: int| (self.entries@[i].hash@, (self.entries@[i].address, self.entries@[i].sequence_number)),
        )
    }
}

impl HashIndex {
    /// No transaction is pointed at twice.
    pub open spec fn wf(&self) -> bool {
        hash_distinct(self@)
    }

    pub fn new() -> (r: Self)
        ensures
            r.wf(),
            r@.len() == 0,
    {
        HashIndex { entries: Vec::new() }
    }

    fn find(&self, address: AccountAddress, sequence_number: u64) -> (r: Option<usize>)
        ensures
            r is Some <==> hash_holds(self@, (address, sequence_number)),
            r is Some ==> r->Some_0 < self@.len() && self@[r->Some_0 as int].1 == (
                address,
                sequence_number,
            ),
            r is Some && self.wf() ==> r->Some_0 == hash_position(self@, (address, sequence_number)),
    {
        let mut i: usize = 0;
        while i < self.entries.len()
            invariant
                i <= self.entries.len(),
                forall|j: int| 0 <= j < i ==> (#[trigger] self@[j]).1 != (address, sequence_number),
            decreases self.entries.len() - i,
        {
            if self.entries[i].address == address && self.entries[i].sequence_number
                == sequence_number {
                proof {
                    assert(self@[i as int].1 == (address, sequence_number));
                    let p = hash_position(self@, (address, sequence_number));
                    if self.wf() && p != i {
                        if p < i {
                            assert(self@[p].1 != self@[i as int].1);
                        } else {
                            assert(self@[i as int].1 != self@[p].1);
                        }
                    }
                }
                return Some(i);
            }
            i += 1;
        }
        None
    }

    /// Puts the transaction in under its hash. One that is in already keeps
    /// its entry.
    pub fn insert(&mut self, hash: HashValue, address: AccountAddress, sequence_number: u64)
        requires
            old(self).wf(),
        ensures
            final(self).wf(),
            final(self)@ == hash_with(old(self)@, hash@, (address, sequence_number)),
    {
        if self.find(address, sequence_number).is_some() {
            return ;
        }
        self.entries.push(HashEntry { hash, address, sequence_number });
        proof {
            lemma_hash_with(old(self)@, hash@, (address, sequence_number));
            assert(self@ =~= hash_with(old(self)@, hash@, (address, sequence_number)));
        }
    }

    /// Takes the transaction out; the others keep their order.
    pub fn remove(&mut self, address: AccountAddress, sequence_number: u64)
        requires
            old(self).wf(),
        ensures
            final(self).wf(),
            final(self)@ == hash_without(old(self)@, (address, sequence_number)),
    {
        match self.find(address, sequence_number) {
            Some(p) => {
                self.entries.remove(p);
                proof {
                    lemma_hash_without(old(self)@, (address, sequence_number));
                    assert(self@ =~= hash_without(old(self)@, (address, sequence_number)));
                }
            },
            None => {},
        }
    }

    /// The transaction that the index holds under the hash; the first, where
    /// it holds several.
    pub fn get(&self, hash: &HashValue) -> (r: Option<TxnPointer>)
        ensures
            r == hash_lookup(self@, hash@),
    {
        let mut i: usize = 0;
        assert(self@.skip(0) =~= self@);
        while i < self.entries.len()
            invariant
                i <= self.entries.len(),
                hash_lookup(self@, hash@) == hash_lookup(self@.skip(i as int), hash@),
            decreases self.entries.len() - i,
        {
            proof {
                let rest = self@.skip(i as int);
                assert(rest[0] == self@[i as int]);
                assert(rest.drop_first() =~= self@.skip(i as int + 1));
            }
            if bytes_equal(&self.entries[i].hash.hash, &hash.hash) {
                return Some((self.entries[i].address, self.entries[i].sequence_number));
            }
            i += 1;
        }
        assert(self@.skip(i as int).len() == 0);
        None
    }

    pub fn size(&self) -> (r: usize)
        ensures
            r == self@.len(),
    {
        self.entries.len()
    }
}

} // verus!
