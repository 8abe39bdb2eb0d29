//! The memory of last known balances: a bounded cache that forgets the
//! balance that went longest without a look.

use cached::Cached;
use crate::coin::{AccountWithContract, AccountWithContractView};
use vstd::prelude::*;

verus! {

#[verifier::external_type_specification]
#[verifier::external_body]
#[verifier::reject_recursive_types(K)]
#[verifier::reject_recursive_types(V)]
pub struct ExSizedCache<K, V>(cached::SizedCache<K, V>);

/// One remembered balance.
pub struct BalanceEntry {
    pub key: AccountWithContractView,
    pub balance: u128,
}

/// What the cache holds, the entry looked at or added last coming first.
pub uninterp spec fn cache_entries(cache: cached::SizedCache<(String, String), u128>) -> Seq<
    BalanceEntry,
>;

/// The number of entries that the cache was made for.
pub uninterp spec fn cache_limit(cache: cached::SizedCache<(String, String), u128>) -> nat;

/// The largest number of entries that a cache can be made for. The cache
/// reserves room for all of them when it is made.
pub const MAX_CACHE_ENTRIES: usize = 16_777_216;

/// The place of the first entry under `key`.
pub open spec fn position_of(entries: Seq<BalanceEntry>, key: AccountWithContractView) -> Option<
    int,
>
    decreases entries.len(),
{
    if entries.len() == 0 {
        None
    } else if entries.last().key == key {
        match position_of(entries.drop_last(), key) {
            Some(i) => Some(i),
            None => Some(entries.len() - 1),
        }
    } else {
        position_of(entries.drop_last(), key)
    }
}

/// The balance kept under `key`.
pub open spec fn balance_of(entries: Seq<BalanceEntry>, key: AccountWithContractView) -> Option<
    u128,
> {
    match position_of(entries, key) {
        Some(i) => Some(entries[i].balance),
        None => None,
    }
}

/// The entries after a look under `key`: an entry that was found moves to
/// the front.
pub open spec fn after_look(entries: Seq<BalanceEntry>, key: AccountWithContractView) -> Seq<
    BalanceEntry,
> {
    match position_of(entries, key) {
        Some(i) => seq![entries[i]] + entries.remove(i),
        None => entries,
    }
}

/// The entries after `balance` is kept under `key`: an entry that was there
/// takes the new balance where it stands; a new entry comes to the front, and
/// where that makes more than `limit` entries, the last one leaves.
pub open spec fn after_store(
    entries: Seq<BalanceEntry>,
    key: AccountWithContractView,
    balance: u128,
    limit: nat,
) -> Seq<BalanceEntry> {
    match position_of(entries, key) {
        Some(i) => entries.update(i, BalanceEntry { key, balance }),
        None => {
            let grown = seq![BalanceEntry { key, balance }] + entries;
            if grown.len() > limit {
                grown.drop_last()
            } else {
                grown
            }
        },
    }
}

/// `SizedCache::with_size` of the crate `cached`: an empty cache for `size`
/// entries. It panics for a size of zero and reserves room for `size` entries
/// at once, which `requires` keeps within bounds.
#[verifier::external_body]
fn sized_cache_with_size(size: usize) -> (out: cached::SizedCache<(String, String), u128>)
    requires
        0 < size <= MAX_CACHE_ENTRIES,
    ensures
        cache_entries(out) == Seq::<BalanceEntry>::empty(),
        cache_limit(out) == size,
{
    cached::SizedCache::with_size(size)
}

/// `Cached::cache_get` of `SizedCache`: the value under the key, if there is
/// one; an entry that was found becomes the most recently used. The hit and
/// miss counters that the call also keeps are not modelled.
#[verifier::external_body]
fn sized_cache_get(
    cache: &mut cached::SizedCache<(String, String), u128>,
    key: &AccountWithContract,
) -> (out: Option<u128>)
    ensures
        out == balance_of(cache_entries(*old(cache)), key@),
        cache_entries(*final(cache)) == after_look(cache_entries(*old(cache)), key@),
        cache_limit(*final(cache)) == cache_limit(*old(cache)),
{
    cache.cache_get(&(key.account_id.clone(), key.contract_account_id.clone())).copied()
}

/// `Cached::cache_set` of `SizedCache`: keeps the value under the key and
/// returns the value that was there. An entry that was there keeps its place
/// in the order of use; a new one becomes the most recently used, and the
/// least recently used entry leaves where the cache is over its limit.
#[verifier::external_body]
fn sized_cache_set(
    cache: &mut cached::SizedCache<(String, String), u128>,
    key: AccountWithContract,
    balance: u128,
) -> (out: Option<u128>)
    ensures
        out == balance_of(cache_entries(*old(cache)), key@),
        cache_entries(*final(cache)) == after_store(
            cache_entries(*old(cache)),
            key@,
            balance,
            cache_limit(*old(cache)),
        ),
        cache_limit(*final(cache)) == cache_limit(*old(cache)),
{
    cache.cache_set((key.account_id, key.contract_account_id), balance)
}


/// No two entries are under one key.
pub open spec fn distinct_keys(entries: Seq<BalanceEntry>) -> bool {
    forall|i: int, j: int|
        0 <= i < entries.len() && 0 <= j < entries.len() && i != j ==> (#[trigger] entries[i]).key
            != (#[trigger] entries[j]).key
}

/// Where `position_of` finds an entry, it is the first one under the key;
/// where it finds none, there is none.
pub proof fn lemma_position_of(entries: Seq<BalanceEntry>, key: AccountWithContractView)
    ensures
        match position_of(entries, key) {
            Some(i) => 0 <= i < entries.len() && entries[i].key == key && forall|j: int|
                0 <= j < i ==> (#[trigger] entries[j]).key != key,
            None => forall|j: int| 0 <= j < entries.len() ==> (#[trigger] entries[j]).key != key,
        },
    decreases entries.len(),
{
    if entries.len() > 0 {
        let front = entries.drop_last();
        lemma_position_of(front, key);
        assert forall|j: int| 0 <= j < front.len() implies front[j] == entries[j] by {}
        match position_of(front, key) {
            Some(i) => {
                assert(entries[i] == front[i]);
                assert forall|j: int| 0 <= j < i implies (#[trigger] entries[j]).key != key by {
                    assert(entries[j] == front[j]);
                }
            },
            None => {
                assert forall|j: int| 0 <= j < front.len() implies (#[trigger] entries[j]).key
                    != key by {
                    assert(entries[j] == front[j]);
                }
            },
        }
    }
}

/// An entry at place `i` whose key stands nowhere before it is the one found.
pub proof fn lemma_position_is(entries: Seq<BalanceEntry>, key: AccountWithContractView, i: int)
    requires
        0 <= i < entries.len(),
        entries[i].key == key,
        forall|j: int| 0 <= j < i ==> (#[trigger] entries[j]).key != key,
    ensures
        position_of(entries, key) == Some(i),
{
    lemma_position_of(entries, key);
}

/// A look keeps the entries apart and their number.
pub proof fn lemma_after_look(entries: Seq<BalanceEntry>, key: AccountWithContractView)
    requires
        distinct_keys(entries),
    ensures
        distinct_keys(after_look(entries, key)),
        after_look(entries, key).len() == entries.len(),
        forall|k: AccountWithContractView|
            balance_of(after_look(entries, key), k) == balance_of(entries, k),
{
    lemma_position_of(entries, key);
    let next = after_look(entries, key);
    match position_of(entries, key) {
        Some(i) => {
            assert forall|a: int| 0 <= a < next.len() implies #[trigger] next[a] == (if a == 0 {
                entries[i]
            } else if a <= i {
                entries[a - 1]
            } else {
                entries[a]
            }) by {}
            assert forall|k: AccountWithContractView|
                balance_of(next, k) == balance_of(entries, k) by {
                lemma_position_of(entries, k);
                lemma_position_of(next, k);
                match position_of(entries, k) {
                    Some(p) => {
                        let q = if p == i {
                            0
                        } else if p < i {
                            p + 1
                        } else {
                            p
                        };
                        assert(next[q] == entries[p]);
                        if position_of(next, k) is None {
                            assert(next[q].key != k);
                        } else {
                            let r = position_of(next, k)->0;
                            if r != q {
                                assert(next[r].key != next[q].key);
                            }
                        }
                    },
                    None => {
                        if position_of(next, k) is Some {
                            let r = position_of(next, k)->0;
                            let p = if r == 0 {
                                i
                            } else if r <= i {
                                r - 1
                            } else {
                                r
                            };
                            assert(entries[p].key != k);
                        }
                    },
                }
            }
        },
        None => {},
    }
}

/// Storing keeps the entries apart and within the limit; the stored balance
/// is then the one found under the key.
pub proof fn lemma_after_store(
    entries: Seq<BalanceEntry>,
    key: AccountWithContractView,
    balance: u128,
    limit: nat,
)
    requires
        distinct_keys(entries),
        entries.len() <= limit,
        0 < limit,
    ensures
        distinct_keys(after_store(entries, key, balance, limit)),
        after_store(entries, key, balance, limit).len() <= limit,
        balance_of(after_store(entries, key, balance, limit), key) == Some(balance),
{
    lemma_position_of(entries, key);
    let next = after_store(entries, key, balance, limit);
    match position_of(entries, key) {
        Some(i) => {
            assert forall|a: int, b: int|
                0 <= a < next.len() && 0 <= b < next.len() && a != b implies (#[trigger] next[a]).key
                != (#[trigger] next[b]).key by {
                assert(next[a].key == entries[a].key);
                assert(next[b].key == entries[b].key);
            }
            assert forall|j: int| 0 <= j < i implies (#[trigger] next[j]).key != key by {
                assert(next[j].key == entries[j].key);
            }
            lemma_position_is(next, key, i);
        },
        None => {
            let grown = seq![BalanceEntry { key, balance }] + entries;
            assert forall|a: int, b: int|
                0 <= a < next.len() && 0 <= b < next.len() && a != b implies (#[trigger] next[a]).key
                != (#[trigger] next[b]).key by {
                assert(next[a] == grown[a]);
                assert(next[b] == grown[b]);
                if a > 0 {
                    assert(grown[a] == entries[a - 1]);
                }
                if b > 0 {
                    assert(grown[b] == entries[b - 1]);
                }
            }
            assert(next[0] == grown[0]);
            lemma_position_is(next, key, 0);
        },
    }
}

/// The cache of last known balances, shared over the whole run.
pub struct FtBalanceCache {
    inner: cached::SizedCache<(String, String), u128>,
}

impl View for FtBalanceCache {
    type V = Seq<BalanceEntry>;

    /// The entries, the one looked at or added last coming first.
    closed spec fn view(&self) -> Seq<BalanceEntry> {
        cache_entries(self.inner)
    }
}

impl FtBalanceCache {
    /// The number of entries that the cache holds at most.
    pub closed spec fn limit(&self) -> nat {
        cache_limit(self.inner)
    }

    /// What holds of every cache that `new` made: no key stands twice, and
    /// the entries are within a limit that is not zero.
    pub open spec fn wf(&self) -> bool {
        &&& distinct_keys(self@)
        &&& self@.len() <= self.limit()
        &&& 0 < self.limit()
    }

    /// An empty cache for `size` balances.
    pub fn new(size: usize) -> (out: FtBalanceCache)
        requires
            0 < size <= MAX_CACHE_ENTRIES,
        ensures
            out.wf(),
            out@ == Seq::<BalanceEntry>::empty(),
            out.limit() == size,
    {
        FtBalanceCache { inner: sized_cache_with_size(size) }
    }

    /// The balance last kept for `key`. A balance that was found counts as
    /// used: it will be the last to leave.
    pub fn get(&mut self, key: &AccountWithContract) -> (out: Option<u128>)
        requires
            old(self).wf(),
        ensures
            final(self).wf(),
            out == balance_of(old(self)@, key@),
            final(self)@ == after_look(old(self)@, key@),
            final(self).limit() == old(self).limit(),
    {
        proof {
            lemma_after_look(self@, key@);
        }
        sized_cache_get(&mut self.inner, key)
    }

    /// Keeps `balance` for `key`.
    pub fn set(&mut self, key: AccountWithContract, balance: u128)
        requires
            old(self).wf(),
        ensures
            final(self).wf(),
            final(self)@ == after_store(old(self)@, key@, balance, old(self).limit()),
            final(self).limit() == old(self).limit(),
    {
        proof {
            lemma_after_store(self@, key@, balance, self.limit());
        }
        let _ = sized_cache_set(&mut self.inner, key, balance);
    }
}

} // verus!
