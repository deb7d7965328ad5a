//! A small cache from accounts to numbers whose entries expire.

use crate::account_address::AccountAddress;
use vstd::prelude::*;

verus! {

/// An entry of the cache.
#[derive(Clone, Copy, Debug, PartialEq, Eq, Structural)]
pub struct CacheEntry {
    pub address: AccountAddress,
    pub value: u64,
    /// The time from which the entry is expired.
    pub expires_at: u64,
}

/// The value that the entries hold for the account: that of the first entry
/// of the account.
pub open spec fn cached(entries: Seq<CacheEntry>, address: AccountAddress) -> Option<u64>
    decreases entries.len(),
{
    if entries.len() == 0 {
        None
    } else if entries[0].address == address {
        Some(entries[0].value)
    } else {
        cached(entries.drop_first(), address)
    }
}

/// The entries without those of the account.
pub open spec fn uncached(entries: Seq<CacheEntry>, address: AccountAddress) -> Seq<CacheEntry> {
    entries.filter(|e: CacheEntry| e.address != address)
}

/// The entries that are not expired at `now`.
pub open spec fn unexpired(entries: Seq<CacheEntry>, now: u64) -> Seq<CacheEntry> {
    entries.filter(|e: CacheEntry| e.expires_at > now)
}

/// The entries after a value was put in for the account at the time `now`:
/// the account's old entries are gone; where the cache is full then, its first
/// entry is gone too; the new entry stands at the end and expires `timeout`
/// after `now`.
pub open spec fn cache_put(
    entries: Seq<CacheEntry>,
    capacity: usize,
    timeout: u64,
    address: AccountAddress,
    value: u64,
    now: u64,
) -> Seq<CacheEntry> {
    let rest = uncached(entries, address);
    let room = if rest.len() > 0 && rest.len() >= capacity {
        rest.drop_first()
    } else {
        rest
    };
    room.push(
        CacheEntry {
            address,
            value,
            expires_at: if now + timeout > u64::MAX {
                u64::MAX
            } else {
                (now + timeout) as u64
            },
        },
    )
}

/// A cache from accounts to numbers. An entry expires a fixed time after it
/// was put in; a full cache drops its first entry for a new one.
#[derive(Debug)]
pub struct TtlCache {
    pub entries: Vec<CacheEntry>,
    pub capacity: usize,
    pub default_timeout: u64,
}

impl View for TtlCache {
    type V = Seq<CacheEntry>;

    open spec fn view(&self) -> Seq<CacheEntry> {
        self.entries@
    }
}

impl TtlCache {
    pub fn new(capacity: usize, default_timeout: u64) -> (r: Self)
        ensures
            r@.len() == 0,
            r.capacity == capacity,
            r.default_timeout == default_timeout,
    {
        TtlCache { entries: Vec::new(), capacity, default_timeout }
    }

    /// The value that the cache holds for the account.
    pub fn get(&self, address: &AccountAddress) -> (r: Option<u64>)
        ensures
            r == cached(self@, *address),
    {
        let mut i: usize = 0;
        assert(self@.skip(0) =~= self@);
        while i < self.entries.len()
            invariant
                i <= self.entries.len(),
                cached(self@, *address) == cached(self@.skip(i as int), *address),
            decreases self.entries.len() - i,
        {
            proof {
                let rest = self@.skip(i as int);
                assert(rest[0] == self@[i as int]);
                assert(rest.drop_first() =~= self@.skip(i as int + 1));
            }
            if self.entries[i].address == *address {
                return Some(self.entries[i].value);
            }
            i += 1;
        }
        assert(self@.skip(i as int).len() == 0);
        None
    }

    /// Takes out the entries of the account.
    fn clear(&mut self, address: &AccountAddress)
        ensures
            final(self)@ == uncached(old(self)@, *address),
            final(self).capacity == old(self).capacity,
            final(self).default_timeout == old(self).default_timeout,
    {
        let mut kept: Vec<CacheEntry> = Vec::new();
        let mut i: usize = 0;
        assert(self@.take(0) =~= Seq::<CacheEntry>::empty());
        while i < self.entries.len()
            invariant
                i <= self.entries.len(),
                *self == *old(self),
                kept@ == uncached(self@.take(i as int), *address),
            decreases self.entries.len() - i,
        {
            proof {
                let next = self@.take(i as int + 1);
                assert(next.drop_last() =~= self@.take(i as int));
                assert(next.last() == self@[i as int]);
                reveal(Seq::filter);
            }
            if self.entries[i].address != *address {
                kept.push(self.entries[i]);
            }
            i += 1;
        }
        assert(self@.take(i as int) =~= self@);
        self.entries = kept;
    }

    /// Puts a value in for the account at the time `now`.
    pub fn insert(&mut self, address: AccountAddress, value: u64, now: u64)
        ensures
            final(self)@ == cache_put(
                old(self)@,
                old(self).capacity,
                old(self).default_timeout,
                address,
                value,
                now,
            ),
            final(self).capacity == old(self).capacity,
            final(self).default_timeout == old(self).default_timeout,
    {
        self.clear(&address);
        if self.entries.len() > 0 && self.entries.len() >= self.capacity {
            self.entries.remove(0);
            assert(self.entries@ =~= uncached(old(self)@, address).drop_first());
        }
        let expires_at = now.saturating_add(self.default_timeout);
        self.entries.push(CacheEntry { address, value, expires_at });
    }

    /// Takes out the entries of the account and returns the value that the
    /// cache held for it.
    pub fn remove(&mut self, address: &AccountAddress) -> (r: Option<u64>)
        ensures
            r == cached(old(self)@, *address),
            final(self)@ == uncached(old(self)@, *address),
            final(self).capacity == old(self).capacity,
            final(self).default_timeout == old(self).default_timeout,
    {
        let r = self.get(address);
        self.clear(address);
        r
    }

    /// Takes out the entries that are expired at `now`.
    pub fn gc(&mut self, now: u64)
        ensures
            final(self)@ == unexpired(old(self)@, now),
            final(self).capacity == old(self).capacity,
            final(self).default_timeout == old(self).default_timeout,
    {
        let mut kept: Vec<CacheEntry> = Vec::new();
        let mut i: usize = 0;
        assert(self@.take(0) =~= Seq::<CacheEntry>::empty());
        while i < self.entries.len()
            invariant
                i <= self.entries.len(),
                *self == *old(self),
                kept@ == unexpired(self@.take(i as int), now),
            decreases self.entries.len() - i,
        {
            proof {
                let next = self@.take(i as int + 1);
                assert(next.drop_last() =~= self@.take(i as int));
                assert(next.last() == self@[i as int]);
                reveal(Seq::filter);
            }
            if self.entries[i].expires_at > now {
                kept.push(self.entries[i]);
            }
            i += 1;
        }
        assert(self@.take(i as int) =~= self@);
        self.entries = kept;
    }

    pub fn size(&self) -> (r: usize)
        ensures
            r == self@.len(),
    {
        self.entries.len()
    }
}

} // verus!
