//! Generic-entry TTL cache with lazy expiration.

use vstd::prelude::*;
use vstd::pervasive::VecAdditionalExecFns;
use crate::counter::{Counter, CounterKey, counter_key_eq};

verus! {

/// Mathematical value of one cache entry: the stored counter value and the
/// absolute instant (milliseconds) at which it expires.
pub ghost struct EntryV {
    pub value: int,
    pub expires_at: int,
}

/// A stored value paired with an absolute expiry instant (milliseconds).
/// Expiration is lazy: the entry is not removed at `expires_at`; it is
/// treated as expired when read after that instant.
pub struct CacheEntry<V> {
    pub value: V,
    pub expires_at: u64,
}

impl<V> CacheEntry<V> {
    /// An entry is expired once the current time has passed `expires_at`.
    pub fn is_expired(&self, current_time: u64) -> (r: bool)
        ensures
            r == (current_time > self.expires_at),
    {
        current_time > self.expires_at
    }
}

impl CacheEntry<i64> {
    /// The entry's mathematical value.
    pub open spec fn view(&self) -> EntryV {
        EntryV { value: self.value as int, expires_at: self.expires_at as int }
    }
}

/// Mapping from counter identity to [`CacheEntry`], keyed by
/// [`CounterKey`]. Held as an association vector with unique keys; the
/// contract surface is the partial map [`Cache::spec_get`].
pub struct Cache {
    pub entries: Vec<(Counter, CacheEntry<i64>)>,
}

/// Replacement for `&mut v[i]`, which Verus does not accept directly.
fn vec_entry_mut(v: &mut Vec<(Counter, CacheEntry<i64>)>, i: usize) -> (e: &mut (
    Counter,
    CacheEntry<i64>,
))
    requires
        i < old(v).len(),
    ensures
        *e == old(v)@[i as int],
        final(v)@ == old(v)@.update(i as int, *final(e)),
{
    &mut v[i]
}

impl Cache {
    /// Keys are unique: no counter identity appears twice.
    pub open spec fn wf(&self) -> bool {
        forall|i: int, j: int|
            0 <= i < j < self.entries@.len() ==> self.entries@[i].0.key()
                != self.entries@[j].0.key()
    }

    /// Whether some entry is stored under `k`.
    pub open spec fn has_key(&self, k: CounterKey) -> bool {
        exists|i: int| 0 <= i < self.entries@.len() && self.entries@[i].0.key() == k
    }

    /// The entry stored under `k`, if any.
    pub open spec fn spec_get(&self, k: CounterKey) -> Option<EntryV> {
        if self.has_key(k) {
            let i = choose|i: int| 0 <= i < self.entries@.len() && self.entries@[i].0.key() == k;
            Some(self.entries@[i].1@)
        } else {
            None
        }
    }

    /// With unique keys, any index holding `k` determines `spec_get(k)`.
    pub proof fn lemma_get_at(&self, k: CounterKey, i: int)
        requires
            self.wf(),
            0 <= i < self.entries@.len(),
            self.entries@[i].0.key() == k,
        ensures
            self.spec_get(k) == Some(self.entries@[i].1@),
    {
        assert(self.has_key(k));
        let j = choose|j: int| 0 <= j < self.entries@.len() && self.entries@[j].0.key() == k;
        if i < j {
            assert(self.entries@[i].0.key() != self.entries@[j].0.key());
        } else if j < i {
            assert(self.entries@[j].0.key() != self.entries@[i].0.key());
        }
    }

    /// An empty cache.
    pub fn new() -> (r: Cache)
        ensures
            r.wf(),
            r.entries@.len() == 0,
            forall|k: CounterKey| r.spec_get(k) == None::<EntryV>,
    {
        let r = Cache { entries: Vec::new() };
        proof {
            assert forall|k: CounterKey| r.spec_get(k) == None::<EntryV> by {
                assert(!r.has_key(k));
            }
        }
        r
    }

    fn find_index(&self, key: &Counter) -> (r: Option<usize>)
        ensures
            match r {
                Some(i) => i < self.entries@.len() && self.entries@[i as int].0.key()
                    == key.key(),
                None => !self.has_key(key.key()),
            },
    {
        let mut i: usize = 0;
        while i < self.entries.len()
            invariant
                i <= self.entries@.len(),
                forall|j: int| 0 <= j < i ==> self.entries@[j].0.key() != key.key(),
            decreases self.entries@.len() - i,
        {
            if counter_key_eq(&self.entries[i].0, key) {
                return Some(i);
            }
            i += 1;
        }
        None
    }

    /// Looks up the entry stored under `key`.
    pub fn get(&self, key: &Counter) -> (r: Option<&CacheEntry<i64>>)
        requires
            self.wf(),
        ensures
            match r {
                Some(e) => self.spec_get(key.key()) == Some(e@),
                None => self.spec_get(key.key()) == None::<EntryV>,
            },
    {
        match self.find_index(key) {
            Some(i) => {
                proof {
                    self.lemma_get_at(key.key(), i as int);
                }
                Some(&self.entries[i].1)
            },
            None => None,
        }
    }

    /// Mutable access to the entry stored under `key`, for updating its
    /// value or expiry in place. The stored key cannot change through the
    /// returned handle, so lookups of other keys are unaffected.
    pub fn get_mut(&mut self, key: &Counter) -> (r: Option<&mut CacheEntry<i64>>)
        requires
            old(self).wf(),
        ensures
            match r {
                Some(e) => exists|i: int|
                    #![trigger old(self).entries@[i]]
                    {
                        &&& 0 <= i < old(self).entries@.len()
                        &&& old(self).entries@[i].0.key() == key.key()
                        &&& *e == old(self).entries@[i].1
                        &&& final(self).entries@ == old(self).entries@.update(
                            i,
                            (old(self).entries@[i].0, *final(e)),
                        )
                    },
                None => {
                    &&& *final(self) == *old(self)
                    &&& old(self).spec_get(key.key()) == None::<EntryV>
                },
            },
    {
        match self.find_index(key) {
            Some(i) => {
                proof {
                    self.lemma_get_at(key.key(), i as int);
                }
                let entry = vec_entry_mut(&mut self.entries, i);
                Some(&mut entry.1)
            },
            None => None,
        }
    }

    /// Looks up the entry's plain fields, for callers that only read them.
    pub fn lookup(&self, key: &Counter) -> (r: Option<(i64, u64)>)
        requires
            self.wf(),
        ensures
            match r {
                Some(p) => self.spec_get(key.key()) == Some(
                    EntryV { value: p.0 as int, expires_at: p.1 as int },
                ),
                None => self.spec_get(key.key()) == None::<EntryV>,
            },
    {
        match self.get(key) {
            Some(e) => Some((e.value, e.expires_at)),
            None => None,
        }
    }

    /// Stores `value` under `key` with absolute expiry `expires_at`,
    /// replacing any previous entry for that key.
    pub fn insert(&mut self, key: &Counter, value: i64, expires_at: u64)
        requires
            old(self).wf(),
        ensures
            final(self).wf(),
            final(self).spec_get(key.key()) == Some(
                EntryV { value: value as int, expires_at: expires_at as int },
            ),
            forall|k: CounterKey|
                k != key.key() ==> final(self).spec_get(k) == old(self).spec_get(k),
    {
        let entry = CacheEntry { value, expires_at };
        let stored = key.duplicate();
        match self.find_index(key) {
            Some(i) => {
                let ghost olds = self.entries@;
                self.entries.set(i, (stored, entry));
                proof {
                    assert forall|a: int, b: int|
                        0 <= a < b < self.entries@.len() implies self.entries@[a].0.key()
                        != self.entries@[b].0.key() by {
                        assert(olds[a].0.key() != olds[b].0.key());
                    }
                    self.lemma_get_at(key.key(), i as int);
                    assert forall|k: CounterKey|
                        k != key.key() implies self.spec_get(k) == old(self).spec_get(k) by {
                        self.lemma_frame_update(*old(self), k, i as int);
                    }
                }
            },
            None => {
                let ghost olds = self.entries@;
                self.entries.push((stored, entry));
                proof {
                    assert forall|a: int, b: int|
                        0 <= a < b < self.entries@.len() implies self.entries@[a].0.key()
                        != self.entries@[b].0.key() by {
                        if b < olds.len() {
                            assert(olds[a].0.key() != olds[b].0.key());
                        } else {
                            assert(self.entries@[b].0.key() == key.key());
                            assert(olds[a].0.key() != key.key());
                        }
                    }
                    self.lemma_get_at(key.key(), olds.len() as int);
                    assert forall|k: CounterKey|
                        k != key.key() implies self.spec_get(k) == old(self).spec_get(k) by {
                        self.lemma_frame_push(*old(self), k);
                    }
                }
            },
        }
    }

    /// After replacing index `i` with an entry whose key is unchanged at
    /// every other index, lookups of every other key are unchanged.
    proof fn lemma_frame_update(&self, pre: Cache, k: CounterKey, i: int)
        requires
            pre.wf(),
            self.wf(),
            self.entries@.len() == pre.entries@.len(),
            0 <= i < pre.entries@.len(),
            forall|j: int|
                0 <= j < pre.entries@.len() && j != i ==> self.entries@[j] == pre.entries@[j],
            self.entries@[i].0.key() != k,
            pre.entries@[i].0.key() != k,
        ensures
            self.spec_get(k) == pre.spec_get(k),
    {
        if pre.has_key(k) {
            let j = choose|j: int| 0 <= j < pre.entries@.len() && pre.entries@[j].0.key() == k;
            assert(self.entries@[j].0.key() == k);
            self.lemma_get_at(k, j);
            pre.lemma_get_at(k, j);
        } else {
            assert forall|j: int|
                0 <= j < self.entries@.len() implies self.entries@[j].0.key() != k by {
                if j != i {
                    assert(pre.entries@[j].0.key() != k);
                }
            }
            assert(!self.has_key(k));
        }
    }

    /// After pushing an entry whose key is not `k`, lookups of `k` are
    /// unchanged.
    proof fn lemma_frame_push(&self, pre: Cache, k: CounterKey)
        requires
            pre.wf(),
            self.wf(),
            self.entries@.len() == pre.entries@.len() + 1,
            forall|j: int| 0 <= j < pre.entries@.len() ==> self.entries@[j] == pre.entries@[j],
            self.entries@.last().0.key() != k,
        ensures
            self.spec_get(k) == pre.spec_get(k),
    {
        if pre.has_key(k) {
            let j = choose|j: int| 0 <= j < pre.entries@.len() && pre.entries@[j].0.key() == k;
            assert(self.entries@[j].0.key() == k);
            self.lemma_get_at(k, j);
            pre.lemma_get_at(k, j);
        } else {
            assert forall|j: int|
                0 <= j < self.entries@.len() implies self.entries@[j].0.key() != k by {
                if j < pre.entries@.len() {
                    assert(pre.entries@[j].0.key() != k);
                }
            }
            assert(!self.has_key(k));
        }
    }

    /// Removes the entry stored under `key`, if any.
    pub fn remove(&mut self, key: &Counter)
        requires
            old(self).wf(),
        ensures
            final(self).wf(),
            final(self).spec_get(key.key()) == None::<EntryV>,
            forall|k: CounterKey|
                k != key.key() ==> final(self).spec_get(k) == old(self).spec_get(k),
    {
        match self.find_index(key) {
            Some(i) => {
                let ghost olds = self.entries@;
                let _ = self.entries.remove(i);
                proof {
                    assert forall|a: int, b: int|
                        0 <= a < b < self.entries@.len() implies self.entries@[a].0.key()
                        != self.entries@[b].0.key() by {
                        let pa: int = if a < i { a } else { a + 1 };
                        let pb: int = if b < i { b } else { b + 1 };
                        assert(self.entries@[a] == olds[pa]);
                        assert(self.entries@[b] == olds[pb]);
                        assert(olds[pa].0.key() != olds[pb].0.key());
                    }
                    assert forall|j: int|
                        0 <= j < self.entries@.len() implies self.entries@[j].0.key()
                        != key.key() by {
                        let pj: int = if j < i { j } else { j + 1 };
                        assert(self.entries@[j] == olds[pj]);
                        if pj != i {
                            assert(olds[pj].0.key() != olds[i as int].0.key());
                        }
                    }
                    assert(!self.has_key(key.key()));
                    assert forall|k: CounterKey|
                        k != key.key() implies self.spec_get(k) == old(self).spec_get(k) by {
                        self.lemma_frame_remove(*old(self), k, i as int);
                    }
                }
            },
            None => {
                proof {
                    assert(!self.has_key(key.key()));
                }
            },
        }
    }

    /// After removing index `i`, lookups of keys other than the one removed
    /// are unchanged.
    proof fn lemma_frame_remove(&self, pre: Cache, k: CounterKey, i: int)
        requires
            pre.wf(),
            self.wf(),
            0 <= i < pre.entries@.len(),
            self.entries@ == pre.entries@.remove(i),
            pre.entries@[i].0.key() != k,
        ensures
            self.spec_get(k) == pre.spec_get(k),
    {
        assert forall|j: int|
            0 <= j < self.entries@.len() implies self.entries@[j] == (if j < i {
            pre.entries@[j]
        } else {
            pre.entries@[j + 1]
        }) by {}
        if pre.has_key(k) {
            let j = choose|j: int| 0 <= j < pre.entries@.len() && pre.entries@[j].0.key() == k;
            let nj: int = if j < i { j } else { j - 1 };
            assert(j != i);
            assert(self.entries@[nj] == pre.entries@[j]);
            self.lemma_get_at(k, nj);
            pre.lemma_get_at(k, j);
        } else {
            assert forall|j: int|
                0 <= j < self.entries@.len() implies self.entries@[j].0.key() != k by {
                let pj: int = if j < i { j } else { j + 1 };
                assert(pre.entries@[pj].0.key() != k);
            }
            assert(!self.has_key(k));
        }
    }

    /// A snapshot of every entry alive at `current_time`: each item carries
    /// the stored counter, its value and its absolute expiry. Expired entries
    /// are filtered out as of `current_time`; order is unspecified.
    pub fn get_all(&mut self, current_time: u64) -> (r: Vec<(Counter, i64, u64)>)
        requires
            old(self).wf(),
        ensures
            *final(self) == *old(self),
            forall|t: int|
                0 <= t < r@.len() ==> old(self).spec_get(#[trigger] r@[t].0.key()) == Some(
                    EntryV { value: r@[t].1 as int, expires_at: r@[t].2 as int },
                ) && current_time <= r@[t].2,
            forall|k: CounterKey|
                (match #[trigger] old(self).spec_get(k) {
                    Some(e) => e.expires_at >= current_time,
                    None => false,
                }) ==> exists|t: int| 0 <= t < r@.len() && r@[t].0.key() == k,
            forall|s: int, t: int| 0 <= s < t < r@.len() ==> r@[s].0.key() != r@[t].0.key(),
    {
        let mut r: Vec<(Counter, i64, u64)> = Vec::new();
        let ghost mut src: Seq<int> = Seq::empty();
        let mut i: usize = 0;
        while i < self.entries.len()
            invariant
                self.wf(),
                i <= self.entries@.len(),
                src.len() == r@.len(),
                forall|t: int| 0 <= t < src.len() ==> 0 <= #[trigger] src[t] < i,
                forall|s: int, t: int| 0 <= s < t < src.len() ==> src[s] < src[t],
                forall|t: int|
                    0 <= t < r@.len() ==> #[trigger] r@[t].0.key()
                        == self.entries@[src[t]].0.key() && r@[t].1
                        == self.entries@[src[t]].1.value && r@[t].2
                        == self.entries@[src[t]].1.expires_at && current_time <= r@[t].2,
                forall|j: int|
                    0 <= j < i && current_time <= #[trigger] self.entries@[j].1.expires_at
                        ==> exists|t: int| 0 <= t < src.len() && src[t] == j,
            decreases self.entries@.len() - i,
        {
            let ghost oldsrc = src;
            let expired = self.entries[i].1.is_expired(current_time);
            if !expired {
                let c = self.entries[i].0.duplicate();
                r.push((c, self.entries[i].1.value, self.entries[i].1.expires_at));
                proof {
                    src = src.push(i as int);
                }
            }
            i += 1;
            proof {
                assert forall|j: int|
                    0 <= j < i && current_time <= #[trigger] self.entries@[j].1.expires_at
                        implies exists|t: int| 0 <= t < src.len() && src[t] == j by {
                    if j < i - 1 {
                        let t = choose|t: int| 0 <= t < oldsrc.len() && oldsrc[t] == j;
                        assert(src[t] == j);
                    } else {
                        assert(!expired);
                        assert(src[src.len() - 1] == j);
                    }
                }
            }
        }
        proof {
            assert forall|t: int|
                0 <= t < r@.len() implies self.spec_get(#[trigger] r@[t].0.key()) == Some(
                EntryV { value: r@[t].1 as int, expires_at: r@[t].2 as int },
            ) && current_time <= r@[t].2 by {
                self.lemma_get_at(r@[t].0.key(), src[t]);
            }
            assert forall|k: CounterKey|
                (match #[trigger] self.spec_get(k) {
                    Some(e) => e.expires_at >= current_time,
                    None => false,
                }) implies exists|t: int| 0 <= t < r@.len() && r@[t].0.key() == k by {
                let j = choose|j: int|
                    0 <= j < self.entries@.len() && self.entries@[j].0.key() == k;
                self.lemma_get_at(k, j);
                assert(current_time <= self.entries@[j].1.expires_at);
                let t = choose|t: int| 0 <= t < src.len() && src[t] == j;
                assert(r@[t].0.key() == k);
            }
            assert forall|s: int, t: int|
                0 <= s < t < r@.len() implies r@[s].0.key() != r@[t].0.key() by {
                assert(src[s] < src[t]);
                assert(self.entries@[src[s]].0.key() != self.entries@[src[t]].0.key());
            }
        }
        r
    }
}

} // verus!
