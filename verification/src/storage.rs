//! Reference in-process store: TTL cache plus namespace/limit index.

use vstd::prelude::*;
use vstd::pervasive::VecAdditionalExecFns;
use crate::cache::{Cache, EntryV};
use crate::clock::Clock;
use crate::counter::{Counter, CounterKey, counter_key_eq};
use crate::errors::StorageErr;
use crate::limit::{Limit, LimitV, limit_eq, str_eq};

verus! {

/// Replacement for `&mut v[i]`, which Verus does not accept directly.
fn vec_at_mut<T>(v: &mut Vec<T>, i: usize) -> (e: &mut T)
    requires
        i < old(v).len(),
    ensures
        *e == old(v)@[i as int],
        final(v)@ == old(v)@.update(i as int, *final(e)),
{
    &mut v[i]
}

/// One registered limit together with the counters currently associated with
/// it, the set that bulk deletion purges.
pub struct LimitCounters {
    pub limit: Limit,
    pub counters: Vec<Counter>,
}

impl LimitCounters {
    /// Counters are unique by identity and all belong to this limit.
    pub open spec fn wf(&self) -> bool {
        &&& forall|a: int, b: int|
            0 <= a < b < self.counters@.len() ==> self.counters@[a].key()
                != self.counters@[b].key()
        &&& forall|a: int|
            0 <= a < self.counters@.len() ==> (#[trigger] self.counters@[a]).limit@ == self.limit@
    }

    /// Whether counter identity `k` is associated with this limit.
    pub open spec fn has_counter(&self, k: CounterKey) -> bool {
        exists|a: int| 0 <= a < self.counters@.len() && (#[trigger] self.counters@[a]).key() == k
    }

    fn find_counter(&self, c: &Counter) -> (r: Option<usize>)
        ensures
            match r {
                Some(a) => a < self.counters@.len() && self.counters@[a as int].key() == c.key(),
                None => !self.has_counter(c.key()),
            },
    {
        let mut a: usize = 0;
        while a < self.counters.len()
            invariant
                a <= self.counters@.len(),
                forall|b: int| 0 <= b < a ==> self.counters@[b].key() != c.key(),
            decreases self.counters@.len() - a,
        {
            if counter_key_eq(&self.counters[a], c) {
                return Some(a);
            }
            a += 1;
        }
        None
    }
}

/// All limits registered under one namespace.
pub struct NamespaceLimits {
    pub namespace: String,
    pub limits: Vec<LimitCounters>,
}

impl NamespaceLimits {
    /// Limits are unique by definition, well formed, and all carry this
    /// entry's namespace.
    pub open spec fn wf(&self) -> bool {
        &&& forall|a: int, b: int|
            0 <= a < b < self.limits@.len() ==> self.limits@[a].limit@ != self.limits@[b].limit@
        &&& forall|a: int| 0 <= a < self.limits@.len() ==> (#[trigger] self.limits@[a]).wf()
        &&& forall|a: int|
            0 <= a < self.limits@.len() ==> (#[trigger] self.limits@[a]).limit@.namespace
                == self.namespace@
    }

    /// Whether `l` is registered under this namespace.
    pub open spec fn has_limit(&self, l: LimitV) -> bool {
        exists|a: int| 0 <= a < self.limits@.len() && (#[trigger] self.limits@[a]).limit@ == l
    }

    /// Whether counter identity `k` is associated with `l` here.
    pub open spec fn assoc(&self, l: LimitV, k: CounterKey) -> bool {
        exists|a: int|
            0 <= a < self.limits@.len() && (#[trigger] self.limits@[a]).limit@ == l
                && self.limits@[a].has_counter(k)
    }

    fn find_limit(&self, limit: &Limit) -> (r: Option<usize>)
        ensures
            match r {
                Some(a) => a < self.limits@.len() && self.limits@[a as int].limit@ == limit@,
                None => !self.has_limit(limit@),
            },
    {
        let mut a: usize = 0;
        while a < self.limits.len()
            invariant
                a <= self.limits@.len(),
                forall|b: int| 0 <= b < a ==> self.limits@[b].limit@ != limit@,
            decreases self.limits@.len() - a,
        {
            if limit_eq(&self.limits[a].limit, limit) {
                return Some(a);
            }
            a += 1;
        }
        None
    }
}

/// The in-process storage backend: a lazily expiring value cache plus a
/// `namespace -> limit -> counters` index for bulk cleanup, with all time
/// taken from the injected clock.
pub struct WasmStorage<C: Clock> {
    pub limits_for_namespace: Vec<NamespaceLimits>,
    pub counters: Cache,
    pub clock: Box<C>,
}

impl<C: Clock> WasmStorage<C> {
    /// The instant the store's clock stands at, in milliseconds.
    pub open spec fn now(&self) -> u64 {
        (*self.clock).now_ms()
    }

    /// Namespaces are unique and each entry is well formed; cache keys are
    /// unique.
    pub open spec fn wf(&self) -> bool {
        &&& self.counters.wf()
        &&& forall|i: int, j: int|
            0 <= i < j < self.limits_for_namespace@.len() ==> self.limits_for_namespace@[i]
                .namespace@ != self.limits_for_namespace@[j].namespace@
        &&& forall|i: int|
            0 <= i < self.limits_for_namespace@.len() ==> (
            #[trigger] self.limits_for_namespace@[i]).wf()
    }

    /// Whether limit `l` is registered under namespace `n`.
    pub open spec fn registered_in(&self, n: Seq<char>, l: LimitV) -> bool {
        exists|i: int|
            0 <= i < self.limits_for_namespace@.len() && (
            #[trigger] self.limits_for_namespace@[i]).namespace@ == n
                && self.limits_for_namespace@[i].has_limit(l)
    }

    /// Whether limit `l` is registered (under its own namespace).
    pub open spec fn registered(&self, l: LimitV) -> bool {
        self.registered_in(l.namespace, l)
    }

    /// Whether counter identity `k` is associated with limit `l` in the
    /// index.
    pub open spec fn associated(&self, l: LimitV, k: CounterKey) -> bool {
        exists|i: int|
            0 <= i < self.limits_for_namespace@.len() && (
            #[trigger] self.limits_for_namespace@[i]).assoc(l, k)
    }

    /// The cache entry stored for counter identity `k`, if any.
    pub open spec fn entry_of(&self, k: CounterKey) -> Option<EntryV> {
        self.counters.spec_get(k)
    }

    fn find_ns(&self, namespace: &str) -> (r: Option<usize>)
        ensures
            match r {
                Some(i) => i < self.limits_for_namespace@.len()
                    && self.limits_for_namespace@[i as int].namespace@ == namespace@,
                None => forall|i: int|
                    0 <= i < self.limits_for_namespace@.len() ==> (
                    #[trigger] self.limits_for_namespace@[i]).namespace@ != namespace@,
            },
    {
        let mut i: usize = 0;
        while i < self.limits_for_namespace.len()
            invariant
                i <= self.limits_for_namespace@.len(),
                forall|j: int|
                    0 <= j < i ==> (#[trigger] self.limits_for_namespace@[j]).namespace@
                        != namespace@,
            decreases self.limits_for_namespace@.len() - i,
        {
            if str_eq(self.limits_for_namespace[i].namespace.as_str(), namespace) {
                return Some(i);
            }
            i += 1;
        }
        None
    }

    /// An empty store reading time from `clock`.
    pub fn new(clock: Box<C>) -> (r: WasmStorage<C>)
        ensures
            r.wf(),
            r.clock == clock,
            r.limits_for_namespace@.len() == 0,
            forall|k: CounterKey| r.entry_of(k) == None::<EntryV>,
            forall|n: Seq<char>, l: LimitV| !r.registered_in(n, l),
            forall|l: LimitV, k: CounterKey| !r.associated(l, k),
    {
        WasmStorage { limits_for_namespace: Vec::new(), counters: Cache::new(), clock }
    }

    /// Registers `limit` under its namespace with an empty associated-counter
    /// set. Re-registering an already-registered limit resets its
    /// associated-counter index to empty without touching the value cache
    /// (which can leave orphaned cache entries, reachable only by direct
    /// lookup). Never fails.
    pub fn add_limit(&mut self, limit: Limit) -> (r: Result<(), StorageErr>)
        requires
            old(self).wf(),
        ensures
            r is Ok,
            final(self).wf(),
            final(self).clock == old(self).clock,
            final(self).counters == old(self).counters,
            final(self).registered(limit@),
            forall|n: Seq<char>, l: LimitV|
                !(n == limit@.namespace && l == limit@) ==> final(self).registered_in(n, l)
                    == old(self).registered_in(n, l),
            forall|k: CounterKey| !final(self).associated(limit@, k),
            forall|l: LimitV, k: CounterKey|
                l != limit@ ==> final(self).associated(l, k) == old(self).associated(l, k),
    {
        let ghost lv = limit@;
        let ghost olds = self.limits_for_namespace@;
        match self.find_ns_of(&limit) {
            Some(i) => {
                let entry = vec_at_mut(&mut self.limits_for_namespace, i);
                let j_opt = entry.find_limit(&limit);
                let fresh = LimitCounters { limit, counters: Vec::new() };
                let ghost j_spec: int = match j_opt {
                    Some(j) => j as int,
                    None => entry.limits@.len() as int,
                };
                match j_opt {
                    Some(j) => {
                        entry.limits.set(j, fresh);
                    },
                    None => {
                        entry.limits.push(fresh);
                    },
                }
                proof {
                    let news = self.limits_for_namespace@;
                    let oe = olds[i as int];
                    let ne = news[i as int];
                    assert(ne.namespace@ == oe.namespace@);
                    assert(ne.limits@[j_spec].limit@ == lv);
                    assert(ne.limits@[j_spec].counters@.len() == 0);
                    assert(forall|a: int|
                        0 <= a < ne.limits@.len() && a != j_spec ==> ne.limits@[a]
                            == oe.limits@[a]);
                    assert forall|a: int, b: int|
                        0 <= a < b < ne.limits@.len() implies ne.limits@[a].limit@
                        != ne.limits@[b].limit@ by {
                        if a != j_spec && b != j_spec {
                            assert(oe.limits@[a].limit@ != oe.limits@[b].limit@);
                        } else if a == j_spec {
                            assert(b < oe.limits@.len());
                            if oe.limits@[b].limit@ == lv {
                                assert(oe.has_limit(lv));
                                lemma_unique_limit_index(oe, lv, j_spec, b);
                            }
                        } else {
                            if a < oe.limits@.len() && oe.limits@[a].limit@ == lv {
                                lemma_unique_limit_index(oe, lv, j_spec, a);
                            }
                        }
                    }
                    assert(ne.wf());
                    assert forall|ii: int|
                        0 <= ii < news.len() implies (#[trigger] news[ii]).wf() by {
                        if ii != i {
                            assert(news[ii] == olds[ii]);
                        }
                    }
                    assert(self.wf());
                    assert(self.registered(lv)) by {
                        assert(news[i as int].namespace@ == lv.namespace);
                        assert(news[i as int].has_limit(lv));
                    }
                    assert forall|n: Seq<char>, l: LimitV|
                        !(n == lv.namespace && l == lv) implies self.registered_in(n, l) == old(
                        self,
                    ).registered_in(n, l) by {
                        lemma_registered_frame(*old(self), *self, i as int, j_spec, lv, n, l);
                    }
                    assert forall|k: CounterKey| !self.associated(lv, k) by {
                        lemma_not_associated_after_reset(*old(self), *self, i as int, j_spec, lv, k);
                    }
                    assert forall|l: LimitV, k: CounterKey|
                        l != lv implies self.associated(l, k) == old(self).associated(l, k) by {
                        lemma_assoc_frame(*old(self), *self, i as int, j_spec, lv, l, k);
                    }
                }
                Ok(())
            },
            None => {
                let namespace = limit.namespace.clone();
                let mut limits: Vec<LimitCounters> = Vec::new();
                limits.push(LimitCounters { limit, counters: Vec::new() });
                let fresh = NamespaceLimits { namespace, limits };
                self.limits_for_namespace.push(fresh);
                proof {
                    let news = self.limits_for_namespace@;
                    let i = olds.len() as int;
                    let ne = news[i];
                    assert(ne.namespace@ == lv.namespace);
                    assert(ne.limits@[0].limit@ == lv);
                    assert(ne.limits@[0].counters@.len() == 0);
                    assert(ne.wf());
                    assert forall|ii: int|
                        0 <= ii < news.len() implies (#[trigger] news[ii]).wf() by {
                        if ii != i {
                            assert(news[ii] == olds[ii]);
                        }
                    }
                    assert forall|i1: int, i2: int|
                        0 <= i1 < i2 < news.len() implies news[i1].namespace@
                        != news[i2].namespace@ by {
                        if i2 == i {
                            assert(olds[i1].namespace@ != lv.namespace);
                        } else {
                            assert(olds[i1].namespace@ != olds[i2].namespace@);
                        }
                    }
                    assert(self.wf());
                    assert(self.registered(lv)) by {
                        assert(news[i].namespace@ == lv.namespace);
                        assert(news[i].has_limit(lv));
                    }
                    assert forall|n: Seq<char>, l: LimitV|
                        !(n == lv.namespace && l == lv) implies self.registered_in(n, l) == old(
                        self,
                    ).registered_in(n, l) by {
                        lemma_registered_frame_push(*old(self), *self, lv, n, l);
                    }
                    assert forall|k: CounterKey| !self.associated(lv, k) by {
                        lemma_not_associated_after_push(*old(self), *self, lv, k);
                    }
                    assert forall|l: LimitV, k: CounterKey|
                        l != lv implies self.associated(l, k) == old(self).associated(l, k) by {
                        lemma_assoc_frame_push(*old(self), *self, lv, l, k);
                    }
                }
                Ok(())
            },
        }
    }

    fn find_ns_of(&self, limit: &Limit) -> (r: Option<usize>)
        ensures
            match r {
                Some(i) => i < self.limits_for_namespace@.len()
                    && self.limits_for_namespace@[i as int].namespace@ == limit@.namespace,
                None => forall|i: int|
                    0 <= i < self.limits_for_namespace@.len() ==> (
                    #[trigger] self.limits_for_namespace@[i]).namespace@ != limit@.namespace,
            },
    {
        self.find_ns(limit.namespace.as_str())
    }

    /// All limits registered under `namespace`; empty if none. Read-only and
    /// never fails.
    #[verifier::rlimit(50)]
    pub fn get_limits(&self, namespace: &str) -> (r: Result<Vec<Limit>, StorageErr>)
        requires
            self.wf(),
        ensures
            r is Ok,
            forall|t: int|
                0 <= t < r->Ok_0@.len() ==> self.registered_in(
                    namespace@,
                    (#[trigger] r->Ok_0@[t])@,
                ),
            forall|l: LimitV|
                self.registered_in(namespace@, l) ==> exists|t: int|
                    0 <= t < r->Ok_0@.len() && (#[trigger] r->Ok_0@[t])@ == l,
            forall|s: int, t: int| 0 <= s < t < r->Ok_0@.len() ==> r->Ok_0@[s]@ != r->Ok_0@[t]@,
    {
        let mut v: Vec<Limit> = Vec::new();
        match self.find_ns(namespace) {
            Some(i) => {
                let entry = &self.limits_for_namespace[i];
                let mut a: usize = 0;
                while a < entry.limits.len()
                    invariant
                        self.wf(),
                        a <= entry.limits@.len(),
                        entry == self.limits_for_namespace@[i as int],
                        i < self.limits_for_namespace@.len(),
                        entry.namespace@ == namespace@,
                        v@.len() == a,
                        forall|t: int| 0 <= t < a ==> (#[trigger] v@[t])@ == entry.limits@[t].limit@,
                    decreases entry.limits@.len() - a,
                {
                    v.push(entry.limits[a].limit.duplicate());
                    a += 1;
                }
                proof {
                    assert forall|t: int|
                        0 <= t < v@.len() implies self.registered_in(
                        namespace@,
                        (#[trigger] v@[t])@,
                    ) by {
                        assert(entry.has_limit(v@[t]@));
                    }
                    assert forall|l: LimitV|
                        self.registered_in(namespace@, l) implies exists|t: int|
                        0 <= t < v@.len() && (#[trigger] v@[t])@ == l by {
                        let ii = choose|ii: int|
                            0 <= ii < self.limits_for_namespace@.len()
                                && self.limits_for_namespace@[ii].namespace@ == namespace@
                                && self.limits_for_namespace@[ii].has_limit(l);
                        lemma_unique_ns_index(*self, namespace@, i as int, ii);
                        let a2 = choose|a2: int|
                            0 <= a2 < entry.limits@.len() && entry.limits@[a2].limit@ == l;
                        assert(v@[a2]@ == l);
                    }
                    assert forall|s: int, t: int|
                        0 <= s < t < v@.len() implies v@[s]@ != v@[t]@ by {
                        assert(entry.limits@[s].limit@ != entry.limits@[t].limit@);
                    }
                }
            },
            None => {
                proof {
                    assert forall|l: LimitV|
                        self.registered_in(namespace@, l) implies exists|t: int|
                        0 <= t < v@.len() && (#[trigger] v@[t])@ == l by {
                        let ii = choose|ii: int|
                            0 <= ii < self.limits_for_namespace@.len()
                                && self.limits_for_namespace@[ii].namespace@ == namespace@
                                && self.limits_for_namespace@[ii].has_limit(l);
                        assert(self.limits_for_namespace@[ii].namespace@ != namespace@);
                    }
                    assert(v@.len() == 0);
                }
            },
        }
        let r: Result<Vec<Limit>, StorageErr> = Ok(v);
        proof {
            assert(r->Ok_0 == v);
            assert forall|t: int|
                0 <= t < r->Ok_0@.len() implies self.registered_in(
                namespace@,
                (#[trigger] r->Ok_0@[t])@,
            ) by {
                assert(r->Ok_0@[t] == v@[t]);
            }
            assert forall|l: LimitV|
                self.registered_in(namespace@, l) implies exists|t: int|
                0 <= t < r->Ok_0@.len() && (#[trigger] r->Ok_0@[t])@ == l by {
                let t0 = choose|t0: int| 0 <= t0 < v@.len() && (#[trigger] v@[t0])@ == l;
                assert(r->Ok_0@[t0]@ == l);
            }
            assert forall|s2: int, t2: int|
                0 <= s2 < t2 < r->Ok_0@.len() implies r->Ok_0@[s2]@ != r->Ok_0@[t2]@ by {
                assert(r->Ok_0@[s2] == v@[s2]);
                assert(r->Ok_0@[t2] == v@[t2]);
            }
        }
        r
    }
}

/// Within a well-formed namespace entry, the index holding a limit is unique.
proof fn lemma_unique_limit_index(e: NamespaceLimits, l: LimitV, a: int, b: int)
    requires
        e.wf(),
        0 <= a < e.limits@.len(),
        0 <= b < e.limits@.len(),
        e.limits@[a].limit@ == l,
        e.limits@[b].limit@ == l,
    ensures
        a == b,
{
    if a < b {
        assert(e.limits@[a].limit@ != e.limits@[b].limit@);
    } else if b < a {
        assert(e.limits@[b].limit@ != e.limits@[a].limit@);
    }
}

/// Within a well-formed store, the index holding a namespace is unique.
proof fn lemma_unique_ns_index<C: Clock>(s: WasmStorage<C>, n: Seq<char>, a: int, b: int)
    requires
        s.wf(),
        0 <= a < s.limits_for_namespace@.len(),
        0 <= b < s.limits_for_namespace@.len(),
        s.limits_for_namespace@[a].namespace@ == n,
        s.limits_for_namespace@[b].namespace@ == n,
    ensures
        a == b,
{
    if a < b {
        assert(s.limits_for_namespace@[a].namespace@ != s.limits_for_namespace@[b].namespace@);
    } else if b < a {
        assert(s.limits_for_namespace@[b].namespace@ != s.limits_for_namespace@[a].namespace@);
    }
}

/// Registration of other limits is unchanged when namespace entry `i` only
/// has its slot `j` replaced by a reset entry for `lv`.
proof fn lemma_registered_frame<C: Clock>(
    pre: WasmStorage<C>,
    post: WasmStorage<C>,
    i: int,
    j: int,
    lv: LimitV,
    n: Seq<char>,
    l: LimitV,
)
    requires
        pre.wf(),
        post.wf(),
        post.limits_for_namespace@.len() == pre.limits_for_namespace@.len(),
        0 <= i < pre.limits_for_namespace@.len(),
        forall|ii: int|
            0 <= ii < pre.limits_for_namespace@.len() && ii != i
                ==> post.limits_for_namespace@[ii] == pre.limits_for_namespace@[ii],
        post.limits_for_namespace@[i].namespace@ == pre.limits_for_namespace@[i].namespace@,
        pre.limits_for_namespace@[i].namespace@ == lv.namespace,
        0 <= j <= pre.limits_for_namespace@[i].limits@.len(),
        post.limits_for_namespace@[i].limits@.len() == if j
            < pre.limits_for_namespace@[i].limits@.len() {
            pre.limits_for_namespace@[i].limits@.len()
        } else {
            pre.limits_for_namespace@[i].limits@.len() + 1
        },
        forall|a: int|
            0 <= a < pre.limits_for_namespace@[i].limits@.len() && a != j
                ==> post.limits_for_namespace@[i].limits@[a]
                == pre.limits_for_namespace@[i].limits@[a],
        post.limits_for_namespace@[i].limits@[j].limit@ == lv,
        j < pre.limits_for_namespace@[i].limits@.len()
            ==> pre.limits_for_namespace@[i].limits@[j].limit@ == lv,
        !(n == lv.namespace && l == lv),
    ensures
        post.registered_in(n, l) == pre.registered_in(n, l),
{
    let pres = pre.limits_for_namespace@;
    let posts = post.limits_for_namespace@;
    if pre.registered_in(n, l) {
        let ii = choose|ii: int|
            0 <= ii < pres.len() && pres[ii].namespace@ == n && pres[ii].has_limit(l);
        if ii != i {
            assert(posts[ii] == pres[ii]);
            assert(post.registered_in(n, l));
        } else {
            let a = choose|a: int| 0 <= a < pres[i].limits@.len() && pres[i].limits@[a].limit@ == l;
            if a == j {
                assert(l == lv);
                assert(n == lv.namespace);
                assert(false);
            } else {
                assert(posts[i].limits@[a].limit@ == l);
                assert(posts[i].has_limit(l));
                assert(post.registered_in(n, l));
            }
        }
    }
    if post.registered_in(n, l) {
        let ii = choose|ii: int|
            0 <= ii < posts.len() && posts[ii].namespace@ == n && posts[ii].has_limit(l);
        if ii != i {
            assert(pres[ii] == posts[ii]);
            assert(pre.registered_in(n, l));
        } else {
            let a = choose|a: int|
                0 <= a < posts[i].limits@.len() && posts[i].limits@[a].limit@ == l;
            if a == j {
                assert(l == lv);
                assert(false);
            } else {
                assert(a < pres[i].limits@.len());
                assert(pres[i].limits@[a].limit@ == l);
                assert(pre.registered_in(n, l));
            }
        }
    }
}

/// No counter is associated with `lv` once its slot has been reset to an
/// empty counter set.
proof fn lemma_not_associated_after_reset<C: Clock>(
    pre: WasmStorage<C>,
    post: WasmStorage<C>,
    i: int,
    j: int,
    lv: LimitV,
    k: CounterKey,
)
    requires
        pre.wf(),
        post.wf(),
        post.limits_for_namespace@.len() == pre.limits_for_namespace@.len(),
        0 <= i < pre.limits_for_namespace@.len(),
        forall|ii: int|
            0 <= ii < pre.limits_for_namespace@.len() && ii != i
                ==> post.limits_for_namespace@[ii] == pre.limits_for_namespace@[ii],
        post.limits_for_namespace@[i].namespace@ == lv.namespace,
        0 <= j < post.limits_for_namespace@[i].limits@.len(),
        post.limits_for_namespace@[i].limits@[j].limit@ == lv,
        post.limits_for_namespace@[i].limits@[j].counters@.len() == 0,
    ensures
        !post.associated(lv, k),
{
    let posts = post.limits_for_namespace@;
    if post.associated(lv, k) {
        let ii = choose|ii: int| 0 <= ii < posts.len() && posts[ii].assoc(lv, k);
        let a = choose|a: int|
            0 <= a < posts[ii].limits@.len() && posts[ii].limits@[a].limit@ == lv
                && posts[ii].limits@[a].has_counter(k);
        assert(posts[ii].limits@[a].limit@.namespace == posts[ii].namespace@);
        assert(posts[ii].namespace@ == lv.namespace);
        lemma_unique_ns_index(post, lv.namespace, ii, i);
        lemma_unique_limit_index(posts[i], lv, a, j);
        assert(posts[i].limits@[j].has_counter(k));
        assert(false);
    }
}

/// Associations of limits other than `lv` are unchanged when only `lv`'s
/// slot in namespace entry `i` is replaced.
proof fn lemma_assoc_frame<C: Clock>(
    pre: WasmStorage<C>,
    post: WasmStorage<C>,
    i: int,
    j: int,
    lv: LimitV,
    l: LimitV,
    k: CounterKey,
)
    requires
        pre.wf(),
        post.wf(),
        post.limits_for_namespace@.len() == pre.limits_for_namespace@.len(),
        0 <= i < pre.limits_for_namespace@.len(),
        forall|ii: int|
            0 <= ii < pre.limits_for_namespace@.len() && ii != i
                ==> post.limits_for_namespace@[ii] == pre.limits_for_namespace@[ii],
        post.limits_for_namespace@[i].namespace@ == pre.limits_for_namespace@[i].namespace@,
        0 <= j <= pre.limits_for_namespace@[i].limits@.len(),
        post.limits_for_namespace@[i].limits@.len() == if j
            < pre.limits_for_namespace@[i].limits@.len() {
            pre.limits_for_namespace@[i].limits@.len()
        } else {
            pre.limits_for_namespace@[i].limits@.len() + 1
        },
        forall|a: int|
            0 <= a < pre.limits_for_namespace@[i].limits@.len() && a != j
                ==> post.limits_for_namespace@[i].limits@[a]
                == pre.limits_for_namespace@[i].limits@[a],
        post.limits_for_namespace@[i].limits@[j].limit@ == lv,
        j < pre.limits_for_namespace@[i].limits@.len()
            ==> pre.limits_for_namespace@[i].limits@[j].limit@ == lv,
        l != lv,
    ensures
        post.associated(l, k) == pre.associated(l, k),
{
    let pres = pre.limits_for_namespace@;
    let posts = post.limits_for_namespace@;
    if pre.associated(l, k) {
        let ii = choose|ii: int| 0 <= ii < pres.len() && pres[ii].assoc(l, k);
        if ii != i {
            assert(posts[ii] == pres[ii]);
            assert(post.associated(l, k));
        } else {
            let a = choose|a: int|
                0 <= a < pres[i].limits@.len() && pres[i].limits@[a].limit@ == l
                    && pres[i].limits@[a].has_counter(k);
            assert(a != j);
            assert(posts[i].limits@[a] == pres[i].limits@[a]);
            assert(posts[i].assoc(l, k));
            assert(post.associated(l, k));
        }
    }
    if post.associated(l, k) {
        let ii = choose|ii: int| 0 <= ii < posts.len() && posts[ii].assoc(l, k);
        if ii != i {
            assert(pres[ii] == posts[ii]);
            assert(pre.associated(l, k));
        } else {
            let a = choose|a: int|
                0 <= a < posts[i].limits@.len() && posts[i].limits@[a].limit@ == l
                    && posts[i].limits@[a].has_counter(k);
            assert(a != j);
            assert(a < pres[i].limits@.len());
            assert(pres[i].limits@[a] == posts[i].limits@[a]);
            assert(pres[i].assoc(l, k));
            assert(pre.associated(l, k));
        }
    }
}

/// Registration of other limits is unchanged when a fresh namespace entry
/// holding only `lv` is appended.
proof fn lemma_registered_frame_push<C: Clock>(
    pre: WasmStorage<C>,
    post: WasmStorage<C>,
    lv: LimitV,
    n: Seq<char>,
    l: LimitV,
)
    requires
        pre.wf(),
        post.wf(),
        post.limits_for_namespace@.len() == pre.limits_for_namespace@.len() + 1,
        forall|ii: int|
            0 <= ii < pre.limits_for_namespace@.len() ==> post.limits_for_namespace@[ii]
                == pre.limits_for_namespace@[ii],
        post.limits_for_namespace@.last().namespace@ == lv.namespace,
        post.limits_for_namespace@.last().limits@.len() == 1,
        post.limits_for_namespace@.last().limits@[0].limit@ == lv,
        !(n == lv.namespace && l == lv),
    ensures
        post.registered_in(n, l) == pre.registered_in(n, l),
{
    let pres = pre.limits_for_namespace@;
    let posts = post.limits_for_namespace@;
    if pre.registered_in(n, l) {
        let ii = choose|ii: int|
            0 <= ii < pres.len() && pres[ii].namespace@ == n && pres[ii].has_limit(l);
        assert(posts[ii] == pres[ii]);
        assert(post.registered_in(n, l));
    }
    if post.registered_in(n, l) {
        let ii = choose|ii: int|
            0 <= ii < posts.len() && posts[ii].namespace@ == n && posts[ii].has_limit(l);
        if ii < pres.len() {
            assert(pres[ii] == posts[ii]);
            assert(pre.registered_in(n, l));
        } else {
            let a = choose|a: int|
                0 <= a < posts[ii].limits@.len() && posts[ii].limits@[a].limit@ == l;
            assert(a == 0);
            assert(l == lv);
            assert(n == lv.namespace);
            assert(false);
        }
    }
}

/// No counter is associated with `lv` when it was registered by appending a
/// fresh namespace entry with an empty counter set.
proof fn lemma_not_associated_after_push<C: Clock>(
    pre: WasmStorage<C>,
    post: WasmStorage<C>,
    lv: LimitV,
    k: CounterKey,
)
    requires
        pre.wf(),
        post.wf(),
        post.limits_for_namespace@.len() == pre.limits_for_namespace@.len() + 1,
        forall|ii: int|
            0 <= ii < pre.limits_for_namespace@.len() ==> post.limits_for_namespace@[ii]
                == pre.limits_for_namespace@[ii],
        forall|ii: int|
            0 <= ii < pre.limits_for_namespace@.len() ==> (
            #[trigger] pre.limits_for_namespace@[ii]).namespace@ != lv.namespace,
        post.limits_for_namespace@.last().namespace@ == lv.namespace,
        post.limits_for_namespace@.last().limits@.len() == 1,
        post.limits_for_namespace@.last().limits@[0].limit@ == lv,
        post.limits_for_namespace@.last().limits@[0].counters@.len() == 0,
    ensures
        !post.associated(lv, k),
{
    let pres = pre.limits_for_namespace@;
    let posts = post.limits_for_namespace@;
    if post.associated(lv, k) {
        let ii = choose|ii: int| 0 <= ii < posts.len() && posts[ii].assoc(lv, k);
        let a = choose|a: int|
            0 <= a < posts[ii].limits@.len() && posts[ii].limits@[a].limit@ == lv
                && posts[ii].limits@[a].has_counter(k);
        if ii < pres.len() {
            assert(posts[ii].namespace@ == posts[ii].limits@[a].limit@.namespace);
            assert(pres[ii].namespace@ == lv.namespace);
            assert(false);
        } else {
            assert(a == 0);
            assert(posts[ii].limits@[0].has_counter(k));
            assert(false);
        }
    }
}

/// Associations of other limits are unchanged when a fresh namespace entry
/// holding only `lv` is appended.
proof fn lemma_assoc_frame_push<C: Clock>(
    pre: WasmStorage<C>,
    post: WasmStorage<C>,
    lv: LimitV,
    l: LimitV,
    k: CounterKey,
)
    requires
        pre.wf(),
        post.wf(),
        post.limits_for_namespace@.len() == pre.limits_for_namespace@.len() + 1,
        forall|ii: int|
            0 <= ii < pre.limits_for_namespace@.len() ==> post.limits_for_namespace@[ii]
                == pre.limits_for_namespace@[ii],
        post.limits_for_namespace@.last().limits@.len() == 1,
        post.limits_for_namespace@.last().limits@[0].limit@ == lv,
        l != lv,
    ensures
        post.associated(l, k) == pre.associated(l, k),
{
    let pres = pre.limits_for_namespace@;
    let posts = post.limits_for_namespace@;
    if pre.associated(l, k) {
        let ii = choose|ii: int| 0 <= ii < pres.len() && pres[ii].assoc(l, k);
        assert(posts[ii] == pres[ii]);
        assert(post.associated(l, k));
    }
    if post.associated(l, k) {
        let ii = choose|ii: int| 0 <= ii < posts.len() && posts[ii].assoc(l, k);
        if ii < pres.len() {
            assert(pres[ii] == posts[ii]);
            assert(pre.associated(l, k));
        } else {
            let a = choose|a: int|
                0 <= a < posts[ii].limits@.len() && posts[ii].limits@[a].limit@ == l
                    && posts[ii].limits@[a].has_counter(k);
            assert(a == 0);
            assert(false);
        }
    }
}

} // verus!

verus! {

/// Whether entry `e` is still alive at instant `now` (lazy expiration: alive
/// until the current time has passed `expires_at`).
pub open spec fn live_at(e: Option<EntryV>, now: int) -> bool {
    match e {
        Some(en) => now <= en.expires_at,
        None => false,
    }
}

/// The entry one `update_counter` call leaves behind: a live entry is
/// decremented in place with its expiry kept; a missing or expired entry is
/// reinitialized to `max - delta` with a fresh window, the old state having
/// no residual effect.
pub open spec fn entry_after(e: Option<EntryV>, max: int, seconds: int, delta: int, now: int) -> EntryV {
    match e {
        Some(en) => if now <= en.expires_at {
            EntryV { value: en.value - delta, expires_at: en.expires_at }
        } else {
            EntryV { value: max - delta, expires_at: now + seconds * 1000 }
        },
        None => EntryV { value: max - delta, expires_at: now + seconds * 1000 },
    }
}

impl<C: Clock> WasmStorage<C> {
    /// What the read-only check answers for counter identity `k` and weight
    /// `delta`. A missing entry, and an expired one (lazy reset: both count
    /// as fully available), admit any `delta` up to the limit's capacity; a
    /// live entry admits `delta` when the stored value covers it.
    pub open spec fn within_limits(&self, k: CounterKey, delta: int) -> bool {
        match self.entry_of(k) {
            Some(e) => if self.now() > e.expires_at {
                delta <= k.limit.max_value
            } else {
                e.value - delta >= 0
            },
            None => delta <= k.limit.max_value,
        }
    }

    /// Read-only check whether consuming `delta` would stay within the
    /// limit. Mutates nothing and never fails.
    pub fn is_within_limits(&self, counter: &Counter, delta: u64) -> (r: Result<
        bool,
        StorageErr,
    >)
        requires
            self.wf(),
        ensures
            r matches Ok(b) && b == self.within_limits(counter.key(), delta as int),
    {
        match self.counters.lookup(counter) {
            Some(p) => {
                let now = self.clock.get_current_time();
                if now > p.1 {
                    Ok(delta <= counter.limit.max_value)
                } else {
                    Ok(p.0 >= 0 && p.0 as u64 >= delta)
                }
            },
            None => Ok(delta <= counter.limit.max_value),
        }
    }

    /// Stores `value` for `counter` directly, with absolute expiry
    /// `expires_at`; the index is not touched.
    pub fn add_counter(&mut self, counter: &Counter, value: i64, expires_at: u64)
        requires
            old(self).wf(),
        ensures
            final(self).wf(),
            final(self).clock == old(self).clock,
            final(self).limits_for_namespace == old(self).limits_for_namespace,
            final(self).entry_of(counter.key()) == Some(
                EntryV { value: value as int, expires_at: expires_at as int },
            ),
            forall|k: CounterKey|
                k != counter.key() ==> final(self).entry_of(k) == old(self).entry_of(k),
    {
        self.counters.insert(counter, value, expires_at);
    }

    /// Records `counter` in the index slot of its (registered) limit; a
    /// counter already recorded stays recorded once.
    fn add_counter_limit_association(&mut self, counter: &Counter)
        requires
            old(self).wf(),
            old(self).registered(counter.limit@),
        ensures
            final(self).wf(),
            final(self).clock == old(self).clock,
            final(self).counters == old(self).counters,
            final(self).associated(counter.limit@, counter.key()),
            forall|l: LimitV, k: CounterKey|
                !(l == counter.limit@ && k == counter.key()) ==> final(self).associated(l, k)
                    == old(self).associated(l, k),
            forall|n: Seq<char>, l: LimitV|
                final(self).registered_in(n, l) == old(self).registered_in(n, l),
    {
        let ghost lv = counter.limit@;
        let ghost ck = counter.key();
        let ghost olds = self.limits_for_namespace@;
        let i_opt = self.find_ns_of(&counter.limit);
        match i_opt {
            Some(i) => {
                proof {
                    let ii = choose|ii: int|
                        0 <= ii < olds.len() && olds[ii].namespace@ == lv.namespace
                            && olds[ii].has_limit(lv);
                    lemma_unique_ns_index(*self, lv.namespace, i as int, ii);
                }
                let entry = vec_at_mut(&mut self.limits_for_namespace, i);
                let j_opt = entry.find_limit(&counter.limit);
                match j_opt {
                    Some(j) => {
                        let ghost olc = entry.limits@[j as int];
                        let lc = vec_at_mut(&mut entry.limits, j);
                        let mut pushed = false;
                        match lc.find_counter(counter) {
                            Some(_) => {},
                            None => {
                                lc.counters.push(counter.duplicate());
                                pushed = true;
                            },
                        }
                        proof {
                            let news = self.limits_for_namespace@;
                            let oe = olds[i as int];
                            let ne = news[i as int];
                            let nlc = ne.limits@[j as int];
                            assert(nlc.limit@ == lv);
                            assert(nlc.wf()) by {
                                if pushed {
                                    assert(forall|a: int|
                                        0 <= a < olc.counters@.len() ==> nlc.counters@[a]
                                            == olc.counters@[a]);
                                    assert(nlc.counters@.last().key() == ck);
                                    assert forall|a: int, b: int|
                                        0 <= a < b < nlc.counters@.len() implies nlc.counters@[a]
                                        .key() != nlc.counters@[b].key() by {
                                        if b < olc.counters@.len() {
                                            assert(olc.counters@[a].key()
                                                != olc.counters@[b].key());
                                        } else {
                                            assert(!olc.has_counter(ck));
                                            assert(olc.counters@[a].key() != ck);
                                        }
                                    }
                                }
                            }
                            assert(nlc.has_counter(ck)) by {
                                if pushed {
                                    assert(nlc.counters@.last().key() == ck);
                                } else {
                                    assert(olc.has_counter(ck));
                                }
                            }
                            assert forall|k2: CounterKey|
                                nlc.has_counter(k2) == (olc.has_counter(k2) || k2 == ck) by {
                                if pushed {
                                    if nlc.has_counter(k2) {
                                        let b = choose|b: int|
                                            0 <= b < nlc.counters@.len() && nlc.counters@[b].key()
                                                == k2;
                                        if b < olc.counters@.len() {
                                            assert(olc.counters@[b].key() == k2);
                                            assert(olc.has_counter(k2));
                                        } else {
                                            assert(k2 == ck);
                                        }
                                    }
                                    if olc.has_counter(k2) {
                                        let b = choose|b: int|
                                            0 <= b < olc.counters@.len() && olc.counters@[b].key()
                                                == k2;
                                        assert(nlc.counters@[b].key() == k2);
                                        assert(nlc.has_counter(k2));
                                    }
                                    if k2 == ck {
                                        assert(nlc.counters@.last().key() == ck);
                                        assert(nlc.has_counter(k2));
                                    }
                                } else {
                                    assert(nlc == olc);
                                    assert(olc.has_counter(ck));
                                }
                            }
                            assert(ne.wf()) by {
                                assert forall|a: int|
                                    0 <= a < ne.limits@.len() implies (
                                #[trigger] ne.limits@[a]).wf() by {
                                    if a != j {
                                        assert(ne.limits@[a] == oe.limits@[a]);
                                    }
                                }
                                assert forall|a: int, b: int|
                                    0 <= a < b < ne.limits@.len() implies ne.limits@[a].limit@
                                    != ne.limits@[b].limit@ by {
                                    assert(oe.limits@[a].limit@ != oe.limits@[b].limit@);
                                }
                            }
                            assert(self.wf()) by {
                                assert forall|ii: int|
                                    0 <= ii < news.len() implies (#[trigger] news[ii]).wf() by {
                                    if ii != i {
                                        assert(news[ii] == olds[ii]);
                                    }
                                }
                            }
                            assert(self.associated(lv, ck)) by {
                                assert(ne.assoc(lv, ck));
                            }
                            assert forall|l: LimitV, k: CounterKey|
                                !(l == lv && k == ck) implies self.associated(l, k) == old(
                                self,
                            ).associated(l, k) by {
                                lemma_assoc_frame_grow(*old(self), *self, i as int, j as int, lv, ck, l, k);
                            }
                            assert forall|n: Seq<char>, l: LimitV|
                                self.registered_in(n, l) == old(self).registered_in(n, l) by {
                                lemma_registered_pointwise(*old(self), *self, n, l);
                            }
                        }
                    },
                    None => {
                        proof {
                            assert(olds[i as int].has_limit(lv));
                            assert(false);
                        }
                    },
                }
            },
            None => {
                proof {
                    let ii = choose|ii: int|
                        0 <= ii < olds.len() && olds[ii].namespace@ == lv.namespace
                            && olds[ii].has_limit(lv);
                    assert(false);
                }
            },
        }
    }

    /// Applies `delta` to the stored entry: a live entry is decremented in
    /// place; a missing or expired entry is reinitialized to `max_value -
    /// delta` with expiry `now + window`, and the counter is (re-)associated
    /// with its limit in the index. The stored value may go negative,
    /// carrying over-limit usage forward for reporting. Never fails.
    pub fn update_counter(&mut self, counter: &Counter, delta: u64) -> (r: Result<
        (),
        StorageErr,
    >)
        requires
            old(self).wf(),
            delta <= i64::MAX,
            !live_at(old(self).entry_of(counter.key()), old(self).now() as int) ==> {
                &&& old(self).registered(counter.limit@)
                &&& counter.limit@.max_value <= i64::MAX
                &&& old(self).now() + counter.limit@.seconds * 1000 <= u64::MAX
            },
            (match old(self).entry_of(counter.key()) {
                Some(e) => old(self).now() <= e.expires_at ==> i64::MIN <= e.value - delta,
                None => true,
            }),
        ensures
            r is Ok,
            final(self).wf(),
            final(self).clock == old(self).clock,
            final(self).entry_of(counter.key()) == Some(
                entry_after(
                    old(self).entry_of(counter.key()),
                    counter.limit@.max_value as int,
                    counter.limit@.seconds as int,
                    delta as int,
                    old(self).now() as int,
                ),
            ),
            forall|k: CounterKey|
                k != counter.key() ==> final(self).entry_of(k) == old(self).entry_of(k),
            forall|n: Seq<char>, l: LimitV|
                final(self).registered_in(n, l) == old(self).registered_in(n, l),
            live_at(old(self).entry_of(counter.key()), old(self).now() as int)
                ==> forall|l: LimitV, k: CounterKey|
                final(self).associated(l, k) == old(self).associated(l, k),
            !live_at(old(self).entry_of(counter.key()), old(self).now() as int) ==> {
                &&& final(self).associated(counter.limit@, counter.key())
                &&& forall|l: LimitV, k: CounterKey|
                    !(l == counter.limit@ && k == counter.key()) ==> final(self).associated(l, k)
                        == old(self).associated(l, k)
            },
    {
        let now = self.clock.get_current_time();
        match self.counters.lookup(counter) {
            Some(p) => {
                if now > p.1 {
                    let init: i64 = counter.limit.max_value as i64 - delta as i64;
                    let exp: u64 = now + counter.limit.seconds * 1000;
                    self.counters.insert(counter, init, exp);
                    proof {
                        lemma_index_untouched(*old(self), *self);
                        assert(self.registered(counter.limit@));
                    }
                    let ghost mid = *self;
                    self.add_counter_limit_association(counter);
                    proof {
                        assert forall|n: Seq<char>, l: LimitV|
                            self.registered_in(n, l) == old(self).registered_in(n, l) by {
                            assert(mid.registered_in(n, l) == old(self).registered_in(n, l));
                        }
                    }
                } else {
                    let nv: i64 = p.0 - delta as i64;
                    self.counters.insert(counter, nv, p.1);
                    proof {
                        lemma_index_untouched(*old(self), *self);
                    }
                }
            },
            None => {
                let init: i64 = counter.limit.max_value as i64 - delta as i64;
                let exp: u64 = now + counter.limit.seconds * 1000;
                self.counters.insert(counter, init, exp);
                proof {
                    lemma_index_untouched(*old(self), *self);
                    assert(self.registered(counter.limit@));
                }
                let ghost mid = *self;
                self.add_counter_limit_association(counter);
                proof {
                    assert forall|n: Seq<char>, l: LimitV|
                        self.registered_in(n, l) == old(self).registered_in(n, l) by {
                        assert(mid.registered_in(n, l) == old(self).registered_in(n, l));
                    }
                }
            },
        }
        Ok(())
    }
}

/// A store whose index vector is unchanged registers and associates exactly
/// as before; in particular a registered limit stays registered.
proof fn lemma_index_untouched<C: Clock>(pre: WasmStorage<C>, post: WasmStorage<C>)
    requires
        post.limits_for_namespace@ == pre.limits_for_namespace@,
    ensures
        forall|n: Seq<char>, l: LimitV|
            post.registered_in(n, l) == pre.registered_in(n, l),
        forall|l: LimitV, k: CounterKey| post.associated(l, k) == pre.associated(l, k),
{
    assert forall|n: Seq<char>, l: LimitV|
        post.registered_in(n, l) == pre.registered_in(n, l) by {
        if pre.registered_in(n, l) {
            let ii = choose|ii: int|
                0 <= ii < pre.limits_for_namespace@.len()
                    && pre.limits_for_namespace@[ii].namespace@ == n
                    && pre.limits_for_namespace@[ii].has_limit(l);
            assert(post.limits_for_namespace@[ii].namespace@ == n);
            assert(post.limits_for_namespace@[ii].has_limit(l));
            assert(post.registered_in(n, l));
        }
        if post.registered_in(n, l) {
            let ii = choose|ii: int|
                0 <= ii < post.limits_for_namespace@.len()
                    && post.limits_for_namespace@[ii].namespace@ == n
                    && post.limits_for_namespace@[ii].has_limit(l);
            assert(pre.limits_for_namespace@[ii].namespace@ == n);
            assert(pre.limits_for_namespace@[ii].has_limit(l));
            assert(pre.registered_in(n, l));
        }
    }
    assert forall|l: LimitV, k: CounterKey|
        post.associated(l, k) == pre.associated(l, k) by {
        if pre.associated(l, k) {
            let ii = choose|ii: int|
                0 <= ii < pre.limits_for_namespace@.len() && pre.limits_for_namespace@[ii].assoc(
                    l,
                    k,
                );
            assert(post.limits_for_namespace@[ii].assoc(l, k));
            assert(post.associated(l, k));
        }
        if post.associated(l, k) {
            let ii = choose|ii: int|
                0 <= ii < post.limits_for_namespace@.len() && post.limits_for_namespace@[ii].assoc(
                    l,
                    k,
                );
            assert(pre.limits_for_namespace@[ii].assoc(l, k));
            assert(pre.associated(l, k));
        }
    }
}

/// Associations are unchanged at every pair other than `(lv, ck)` when the
/// only index change is pushing a counter with identity `ck` onto `lv`'s
/// slot `(i, j)`.
proof fn lemma_assoc_frame_grow<C: Clock>(
    pre: WasmStorage<C>,
    post: WasmStorage<C>,
    i: int,
    j: int,
    lv: LimitV,
    ck: CounterKey,
    l: LimitV,
    k: CounterKey,
)
    requires
        pre.wf(),
        post.wf(),
        post.limits_for_namespace@.len() == pre.limits_for_namespace@.len(),
        0 <= i < pre.limits_for_namespace@.len(),
        forall|ii: int|
            0 <= ii < pre.limits_for_namespace@.len() && ii != i
                ==> post.limits_for_namespace@[ii] == pre.limits_for_namespace@[ii],
        post.limits_for_namespace@[i].namespace@ == pre.limits_for_namespace@[i].namespace@,
        post.limits_for_namespace@[i].limits@.len() == pre.limits_for_namespace@[i].limits@.len(),
        0 <= j < pre.limits_for_namespace@[i].limits@.len(),
        forall|a: int|
            0 <= a < pre.limits_for_namespace@[i].limits@.len() && a != j
                ==> post.limits_for_namespace@[i].limits@[a]
                == pre.limits_for_namespace@[i].limits@[a],
        pre.limits_for_namespace@[i].limits@[j].limit@ == lv,
        post.limits_for_namespace@[i].limits@[j].limit@ == lv,
        forall|k2: CounterKey|
            post.limits_for_namespace@[i].limits@[j].has_counter(k2) == (
            pre.limits_for_namespace@[i].limits@[j].has_counter(k2) || k2 == ck),
        !(l == lv && k == ck),
    ensures
        post.associated(l, k) == pre.associated(l, k),
{
    let pres = pre.limits_for_namespace@;
    let posts = post.limits_for_namespace@;
    if pre.associated(l, k) {
        let ii = choose|ii: int| 0 <= ii < pres.len() && pres[ii].assoc(l, k);
        if ii != i {
            assert(posts[ii] == pres[ii]);
            assert(post.associated(l, k));
        } else {
            let a = choose|a: int|
                0 <= a < pres[i].limits@.len() && pres[i].limits@[a].limit@ == l
                    && pres[i].limits@[a].has_counter(k);
            if a == j {
                assert(posts[i].limits@[j].has_counter(k));
                assert(posts[i].assoc(l, k));
            } else {
                assert(posts[i].limits@[a] == pres[i].limits@[a]);
                assert(posts[i].assoc(l, k));
            }
            assert(post.associated(l, k));
        }
    }
    if post.associated(l, k) {
        let ii = choose|ii: int| 0 <= ii < posts.len() && posts[ii].assoc(l, k);
        if ii != i {
            assert(pres[ii] == posts[ii]);
            assert(pre.associated(l, k));
        } else {
            let a = choose|a: int|
                0 <= a < posts[i].limits@.len() && posts[i].limits@[a].limit@ == l
                    && posts[i].limits@[a].has_counter(k);
            if a == j {
                assert(l == lv);
                assert(k != ck);
                assert(pres[i].limits@[j].has_counter(k));
                assert(pres[i].assoc(l, k));
            } else {
                assert(pres[i].limits@[a] == posts[i].limits@[a]);
                assert(pres[i].assoc(l, k));
            }
            assert(pre.associated(l, k));
        }
    }
}

/// Registration is unchanged everywhere when every namespace entry keeps its
/// name, its number of limits and each slot's limit definition.
proof fn lemma_registered_pointwise<C: Clock>(
    pre: WasmStorage<C>,
    post: WasmStorage<C>,
    n: Seq<char>,
    l: LimitV,
)
    requires
        post.limits_for_namespace@.len() == pre.limits_for_namespace@.len(),
        forall|ii: int|
            0 <= ii < pre.limits_for_namespace@.len() ==> (
            #[trigger] post.limits_for_namespace@[ii]).namespace@
                == pre.limits_for_namespace@[ii].namespace@,
        forall|ii: int|
            0 <= ii < pre.limits_for_namespace@.len() ==> (
            #[trigger] post.limits_for_namespace@[ii]).limits@.len()
                == pre.limits_for_namespace@[ii].limits@.len(),
        forall|ii: int, a: int|
            0 <= ii < pre.limits_for_namespace@.len() && 0 <= a
                < pre.limits_for_namespace@[ii].limits@.len() ==> (
            #[trigger] post.limits_for_namespace@[ii].limits@[a]).limit@
                == pre.limits_for_namespace@[ii].limits@[a].limit@,
    ensures
        post.registered_in(n, l) == pre.registered_in(n, l),
{
    let pres = pre.limits_for_namespace@;
    let posts = post.limits_for_namespace@;
    if pre.registered_in(n, l) {
        let ii = choose|ii: int|
            0 <= ii < pres.len() && pres[ii].namespace@ == n && pres[ii].has_limit(l);
        let a = choose|a: int| 0 <= a < pres[ii].limits@.len() && pres[ii].limits@[a].limit@ == l;
        assert(posts[ii].limits@[a].limit@ == l);
        assert(posts[ii].has_limit(l));
        assert(post.registered_in(n, l));
    }
    if post.registered_in(n, l) {
        let ii = choose|ii: int|
            0 <= ii < posts.len() && posts[ii].namespace@ == n && posts[ii].has_limit(l);
        let a = choose|a: int| 0 <= a < posts[ii].limits@.len() && posts[ii].limits@[a].limit@ == l;
        assert(pres[ii].limits@[a].limit@ == l);
        assert(pres[ii].has_limit(l));
        assert(pre.registered_in(n, l));
    }
}

} // verus!

verus! {

impl<C: Clock> WasmStorage<C> {
    /// Whether counter identity `k` is associated with some limit of
    /// namespace `n`.
    pub open spec fn ns_associated(&self, n: Seq<char>, k: CounterKey) -> bool {
        exists|l: LimitV| #[trigger] self.associated(l, k) && l.namespace == n
    }

    /// Removes from the cache every counter associated with `limit`; the
    /// index itself is untouched.
    fn delete_counters_of_limit(&mut self, limit: &Limit)
        requires
            old(self).wf(),
        ensures
            final(self).wf(),
            final(self).clock == old(self).clock,
            final(self).limits_for_namespace == old(self).limits_for_namespace,
            forall|k: CounterKey|
                old(self).associated(limit@, k) ==> final(self).entry_of(k) == None::<EntryV>,
            forall|k: CounterKey|
                !old(self).associated(limit@, k) ==> final(self).entry_of(k) == old(
                    self,
                ).entry_of(k),
    {
        let ghost lv = limit@;
        match self.find_ns_of(limit) {
            Some(i) => {
                let j_opt = self.limits_for_namespace[i].find_limit(limit);
                match j_opt {
                    Some(j) => {
                        let n = self.limits_for_namespace[i].limits[j].counters.len();
                        let mut a: usize = 0;
                        while a < n
                            invariant
                                self.wf(),
                                self.limits_for_namespace == old(self).limits_for_namespace,
                                self.clock == old(self).clock,
                                i < self.limits_for_namespace@.len(),
                                j < self.limits_for_namespace@[i as int].limits@.len(),
                                self.limits_for_namespace@[i as int].namespace@ == lv.namespace,
                                self.limits_for_namespace@[i as int].limits@[j as int].limit@
                                    == lv,
                                n == self.limits_for_namespace@[i as int].limits@[
                                    j as int
                                ].counters@.len(),
                                a <= n,
                                forall|k: CounterKey|
                                    (exists|b: int|
                                        0 <= b < a && (#[trigger] self.limits_for_namespace@[
                                            i as int
                                        ].limits@[j as int].counters@[b]).key() == k) ==> self
                                        .entry_of(k) == None::<EntryV>,
                                forall|k: CounterKey|
                                    !(exists|b: int|
                                        0 <= b < a && (#[trigger] self.limits_for_namespace@[
                                            i as int
                                        ].limits@[j as int].counters@[b]).key() == k) ==> self
                                        .entry_of(k) == old(self).entry_of(k),
                            decreases n - a,
                        {
                            let ghost pre = *self;
                            let c = self.limits_for_namespace[i].limits[j].counters[a].duplicate();
                            self.counters.remove(&c);
                            a += 1;
                            proof {
                                let slot =
                                    self.limits_for_namespace@[i as int].limits@[j as int];
                                assert(c.key() == slot.counters@[a - 1].key());
                                assert forall|k: CounterKey|
                                    (exists|b: int|
                                        0 <= b < a && (#[trigger] slot.counters@[b]).key() == k)
                                        implies self.entry_of(k) == None::<EntryV> by {
                                    let b = choose|b: int|
                                        0 <= b < a && slot.counters@[b].key() == k;
                                    if k != c.key() {
                                        assert(b < a - 1);
                                        assert(pre.entry_of(k) == None::<EntryV>);
                                        assert(self.entry_of(k) == pre.entry_of(k));
                                    }
                                }
                                assert forall|k: CounterKey|
                                    !(exists|b: int|
                                        0 <= b < a && (#[trigger] slot.counters@[b]).key() == k)
                                        implies self.entry_of(k) == old(self).entry_of(k) by {
                                    assert(slot.counters@[a - 1].key() != k);
                                    assert(!(exists|b: int|
                                        0 <= b < a - 1 && (#[trigger] slot.counters@[b]).key()
                                            == k));
                                    assert(pre.entry_of(k) == old(self).entry_of(k));
                                    assert(self.entry_of(k) == pre.entry_of(k));
                                }
                            }
                        }
                        proof {
                            let slot = self.limits_for_namespace@[i as int].limits@[j as int];
                            assert forall|k: CounterKey|
                                old(self).associated(lv, k) implies self.entry_of(k) == None::<
                                EntryV,
                            > by {
                                let ii = choose|ii: int|
                                    0 <= ii < old(self).limits_for_namespace@.len() && old(
                                        self,
                                    ).limits_for_namespace@[ii].assoc(lv, k);
                                let aa = choose|aa: int|
                                    0 <= aa < old(self).limits_for_namespace@[ii].limits@.len()
                                        && old(self).limits_for_namespace@[ii].limits@[aa].limit@
                                        == lv && old(self).limits_for_namespace@[ii].limits@[
                                        aa
                                    ].has_counter(k);
                                assert(old(self).limits_for_namespace@[ii].namespace@
                                    == lv.namespace);
                                lemma_unique_ns_index(*old(self), lv.namespace, ii, i as int);
                                lemma_unique_limit_index(
                                    old(self).limits_for_namespace@[i as int],
                                    lv,
                                    aa,
                                    j as int,
                                );
                                let b = choose|b: int|
                                    0 <= b < slot.counters@.len() && slot.counters@[b].key() == k;
                                assert(slot.counters@[b].key() == k);
                            }
                            assert forall|k: CounterKey|
                                !old(self).associated(lv, k) implies self.entry_of(k) == old(
                                self,
                            ).entry_of(k) by {
                                if exists|b: int|
                                    0 <= b < n && (#[trigger] slot.counters@[b]).key() == k {
                                    let b = choose|b: int|
                                        0 <= b < n && slot.counters@[b].key() == k;
                                    assert(slot.has_counter(k));
                                    assert(self.limits_for_namespace@[i as int].assoc(lv, k));
                                    assert(old(self).associated(lv, k));
                                }
                            }
                        }
                    },
                    None => {
                        proof {
                            assert forall|k: CounterKey|
                                !old(self).associated(lv, k) by {
                                if old(self).associated(lv, k) {
                                    let ii = choose|ii: int|
                                        0 <= ii < self.limits_for_namespace@.len()
                                            && self.limits_for_namespace@[ii].assoc(lv, k);
                                    let aa = choose|aa: int|
                                        0 <= aa < self.limits_for_namespace@[ii].limits@.len()
                                            && self.limits_for_namespace@[ii].limits@[aa].limit@
                                            == lv && self.limits_for_namespace@[ii].limits@[
                                            aa
                                        ].has_counter(k);
                                    assert(self.limits_for_namespace@[ii].namespace@
                                        == lv.namespace);
                                    lemma_unique_ns_index(*self, lv.namespace, ii, i as int);
                                    assert(self.limits_for_namespace@[i as int].has_limit(lv));
                                }
                            }
                        }
                    },
                }
            },
            None => {
                proof {
                    assert forall|k: CounterKey| !old(self).associated(lv, k) by {
                        if old(self).associated(lv, k) {
                            let ii = choose|ii: int|
                                0 <= ii < self.limits_for_namespace@.len()
                                    && self.limits_for_namespace@[ii].assoc(lv, k);
                            let aa = choose|aa: int|
                                0 <= aa < self.limits_for_namespace@[ii].limits@.len()
                                    && self.limits_for_namespace@[ii].limits@[aa].limit@ == lv
                                    && self.limits_for_namespace@[ii].limits@[aa].has_counter(k);
                            assert(self.limits_for_namespace@[ii].namespace@ == lv.namespace);
                        }
                    }
                }
            },
        }
    }

    /// Removes every counter associated with `limit` from the cache, then
    /// removes `limit` from its namespace's registry. Never fails.
    pub fn delete_limit(&mut self, limit: &Limit) -> (r: Result<(), StorageErr>)
        requires
            old(self).wf(),
        ensures
            r is Ok,
            final(self).wf(),
            final(self).clock == old(self).clock,
            forall|k: CounterKey|
                old(self).associated(limit@, k) ==> final(self).entry_of(k) == None::<EntryV>,
            forall|k: CounterKey|
                !old(self).associated(limit@, k) ==> final(self).entry_of(k) == old(
                    self,
                ).entry_of(k),
            !final(self).registered(limit@),
            forall|n: Seq<char>, l: LimitV|
                !(n == limit@.namespace && l == limit@) ==> final(self).registered_in(n, l)
                    == old(self).registered_in(n, l),
            forall|l: LimitV, k: CounterKey|
                l != limit@ ==> final(self).associated(l, k) == old(self).associated(l, k),
            forall|k: CounterKey| !final(self).associated(limit@, k),
    {
        let ghost lv = limit@;
        self.delete_counters_of_limit(limit);
        let ghost mid = *self;
        match self.find_ns_of(limit) {
            Some(i) => {
                let entry = vec_at_mut(&mut self.limits_for_namespace, i);
                let j_opt = entry.find_limit(limit);
                match j_opt {
                    Some(j) => {
                        let ghost olims = entry.limits@;
                        let _ = entry.limits.remove(j);
                        proof {
                            let news = self.limits_for_namespace@;
                            let ne = news[i as int];
                            assert(ne.limits@ == olims.remove(j as int));
                            assert forall|b: int|
                                0 <= b < ne.limits@.len() implies ne.limits@[b] == (if b < j {
                                olims[b]
                            } else {
                                olims[b + 1]
                            }) by {}
                            assert(ne.wf()) by {
                                assert forall|x: int, y: int|
                                    0 <= x < y < ne.limits@.len() implies ne.limits@[x].limit@
                                    != ne.limits@[y].limit@ by {
                                    let px: int = if x < j { x } else { x + 1 };
                                    let py: int = if y < j { y } else { y + 1 };
                                    assert(olims[px].limit@ != olims[py].limit@);
                                }
                                assert forall|x: int|
                                    0 <= x < ne.limits@.len() implies (
                                #[trigger] ne.limits@[x]).wf() by {
                                    let px: int = if x < j { x } else { x + 1 };
                                    assert(olims[px].wf());
                                }
                            }
                            assert(self.wf()) by {
                                assert forall|ii: int|
                                    0 <= ii < news.len() implies (#[trigger] news[ii]).wf() by {
                                    if ii != i {
                                        assert(news[ii] == mid.limits_for_namespace@[ii]);
                                    }
                                }
                            }
                            assert(!self.registered(lv)) by {
                                if self.registered(lv) {
                                    let ii = choose|ii: int|
                                        0 <= ii < news.len() && news[ii].namespace@ == lv.namespace
                                            && news[ii].has_limit(lv);
                                    lemma_unique_ns_index(*self, lv.namespace, ii, i as int);
                                    let b = choose|b: int|
                                        0 <= b < ne.limits@.len() && ne.limits@[b].limit@ == lv;
                                    let pb: int = if b < j { b } else { b + 1 };
                                    assert(olims[pb].limit@ == lv);
                                    lemma_unique_limit_index(
                                        mid.limits_for_namespace@[i as int],
                                        lv,
                                        pb,
                                        j as int,
                                    );
                                }
                            }
                            assert forall|k: CounterKey| !self.associated(lv, k) by {
                                if self.associated(lv, k) {
                                    let ii = choose|ii: int|
                                        0 <= ii < news.len() && news[ii].assoc(lv, k);
                                    let aa = choose|aa: int|
                                        0 <= aa < news[ii].limits@.len()
                                            && news[ii].limits@[aa].limit@ == lv
                                            && news[ii].limits@[aa].has_counter(k);
                                    assert(news[ii].namespace@ == lv.namespace);
                                    lemma_unique_ns_index(*self, lv.namespace, ii, i as int);
                                    let pa: int = if aa < j { aa } else { aa + 1 };
                                    assert(olims[pa].limit@ == lv);
                                    lemma_unique_limit_index(
                                        mid.limits_for_namespace@[i as int],
                                        lv,
                                        pa,
                                        j as int,
                                    );
                                }
                            }
                            assert forall|n: Seq<char>, l: LimitV|
                                !(n == lv.namespace && l == lv) implies self.registered_in(n, l)
                                == mid.registered_in(n, l) by {
                                lemma_registered_frame_inner_remove(
                                    mid,
                                    *self,
                                    i as int,
                                    j as int,
                                    lv,
                                    n,
                                    l,
                                );
                            }
                            assert forall|l: LimitV, k: CounterKey|
                                l != lv implies self.associated(l, k) == mid.associated(l, k) by {
                                lemma_assoc_frame_inner_remove(
                                    mid,
                                    *self,
                                    i as int,
                                    j as int,
                                    lv,
                                    l,
                                    k,
                                );
                            }
                        }
                    },
                    None => {
                        proof {
                            assert(self.limits_for_namespace@ =~= mid.limits_for_namespace@);
                            lemma_index_untouched(mid, *self);
                            assert(!self.registered(lv)) by {
                                if self.registered(lv) {
                                    let ii = choose|ii: int|
                                        0 <= ii < self.limits_for_namespace@.len()
                                            && self.limits_for_namespace@[ii].namespace@
                                            == lv.namespace
                                            && self.limits_for_namespace@[ii].has_limit(lv);
                                    lemma_unique_ns_index(*self, lv.namespace, ii, i as int);
                                }
                            }
                            assert forall|k: CounterKey| !self.associated(lv, k) by {
                                if self.associated(lv, k) {
                                    let ii = choose|ii: int|
                                        0 <= ii < self.limits_for_namespace@.len()
                                            && self.limits_for_namespace@[ii].assoc(lv, k);
                                    let aa = choose|aa: int|
                                        0 <= aa < self.limits_for_namespace@[ii].limits@.len()
                                            && self.limits_for_namespace@[ii].limits@[aa].limit@
                                            == lv && self.limits_for_namespace@[ii].limits@[
                                            aa
                                        ].has_counter(k);
                                    assert(self.limits_for_namespace@[ii].namespace@
                                        == lv.namespace);
                                    lemma_unique_ns_index(*self, lv.namespace, ii, i as int);
                                    assert(self.limits_for_namespace@[i as int].has_limit(lv));
                                }
                            }
                        }
                    },
                }
            },
            None => {
                proof {
                    assert(*self == mid);
                    lemma_index_untouched(mid, *self);
                    assert(!self.registered(lv)) by {
                        if self.registered(lv) {
                            let ii = choose|ii: int|
                                0 <= ii < self.limits_for_namespace@.len()
                                    && self.limits_for_namespace@[ii].namespace@ == lv.namespace
                                    && self.limits_for_namespace@[ii].has_limit(lv);
                            assert(self.limits_for_namespace@[ii].namespace@ != lv.namespace);
                        }
                    }
                    assert forall|k: CounterKey| !self.associated(lv, k) by {
                        if self.associated(lv, k) {
                            let ii = choose|ii: int|
                                0 <= ii < self.limits_for_namespace@.len()
                                    && self.limits_for_namespace@[ii].assoc(lv, k);
                            let aa = choose|aa: int|
                                0 <= aa < self.limits_for_namespace@[ii].limits@.len()
                                    && self.limits_for_namespace@[ii].limits@[aa].limit@ == lv
                                    && self.limits_for_namespace@[ii].limits@[aa].has_counter(k);
                            assert(self.limits_for_namespace@[ii].namespace@ == lv.namespace);
                        }
                    }
                }
            },
        }
        proof {
            lemma_index_untouched(*old(self), mid);
            assert(self.counters == mid.counters);
            assert forall|k: CounterKey|
                old(self).associated(lv, k) implies self.entry_of(k) == None::<EntryV> by {
                assert(mid.entry_of(k) == None::<EntryV>);
                assert(self.entry_of(k) == mid.entry_of(k));
            }
            assert forall|k: CounterKey|
                !old(self).associated(lv, k) implies self.entry_of(k) == old(self).entry_of(
                k,
            ) by {
                assert(mid.entry_of(k) == old(self).entry_of(k));
                assert(self.entry_of(k) == mid.entry_of(k));
            }
            assert forall|n: Seq<char>, l: LimitV|
                !(n == lv.namespace && l == lv) implies self.registered_in(n, l) == old(
                self,
            ).registered_in(n, l) by {
                assert(self.registered_in(n, l) == mid.registered_in(n, l));
                assert(mid.registered_in(n, l) == old(self).registered_in(n, l));
            }
            assert forall|l: LimitV, k: CounterKey|
                l != lv implies self.associated(l, k) == old(self).associated(l, k) by {
                assert(self.associated(l, k) == mid.associated(l, k));
                assert(mid.associated(l, k) == old(self).associated(l, k));
            }
        }
        Ok(())
    }
}

/// Registration of other limits is unchanged when slot `j` (holding `lv`) is
/// removed from namespace entry `i`.
proof fn lemma_registered_frame_inner_remove<C: Clock>(
    pre: WasmStorage<C>,
    post: WasmStorage<C>,
    i: int,
    j: int,
    lv: LimitV,
    n: Seq<char>,
    l: LimitV,
)
    requires
        pre.wf(),
        post.wf(),
        post.limits_for_namespace@.len() == pre.limits_for_namespace@.len(),
        0 <= i < pre.limits_for_namespace@.len(),
        forall|ii: int|
            0 <= ii < pre.limits_for_namespace@.len() && ii != i
                ==> post.limits_for_namespace@[ii] == pre.limits_for_namespace@[ii],
        post.limits_for_namespace@[i].namespace@ == pre.limits_for_namespace@[i].namespace@,
        0 <= j < pre.limits_for_namespace@[i].limits@.len(),
        post.limits_for_namespace@[i].limits@ == pre.limits_for_namespace@[i].limits@.remove(j),
        pre.limits_for_namespace@[i].limits@[j].limit@ == lv,
        !(n == lv.namespace && l == lv),
        pre.limits_for_namespace@[i].namespace@ == lv.namespace,
    ensures
        post.registered_in(n, l) == pre.registered_in(n, l),
{
    let pres = pre.limits_for_namespace@;
    let posts = post.limits_for_namespace@;
    let olims = pres[i].limits@;
    let nlims = posts[i].limits@;
    assert(forall|b: int|
        0 <= b < nlims.len() ==> nlims[b] == (if b < j {
            olims[b]
        } else {
            olims[b + 1]
        }));
    if pre.registered_in(n, l) {
        let ii = choose|ii: int|
            0 <= ii < pres.len() && pres[ii].namespace@ == n && pres[ii].has_limit(l);
        if ii != i {
            assert(posts[ii] == pres[ii]);
            assert(post.registered_in(n, l));
        } else {
            let a = choose|a: int| 0 <= a < olims.len() && olims[a].limit@ == l;
            if a == j {
                assert(l == lv);
                assert(n == lv.namespace);
                assert(false);
            } else {
                let na: int = if a < j { a } else { a - 1 };
                assert(nlims[na].limit@ == l);
                assert(posts[i].has_limit(l));
                assert(post.registered_in(n, l));
            }
        }
    }
    if post.registered_in(n, l) {
        let ii = choose|ii: int|
            0 <= ii < posts.len() && posts[ii].namespace@ == n && posts[ii].has_limit(l);
        if ii != i {
            assert(pres[ii] == posts[ii]);
            assert(pre.registered_in(n, l));
        } else {
            let a = choose|a: int| 0 <= a < nlims.len() && nlims[a].limit@ == l;
            let pa: int = if a < j { a } else { a + 1 };
            assert(olims[pa].limit@ == l);
            assert(pres[i].has_limit(l));
            assert(pre.registered_in(n, l));
        }
    }
}

/// Associations of other limits are unchanged when slot `j` (holding `lv`)
/// is removed from namespace entry `i`.
proof fn lemma_assoc_frame_inner_remove<C: Clock>(
    pre: WasmStorage<C>,
    post: WasmStorage<C>,
    i: int,
    j: int,
    lv: LimitV,
    l: LimitV,
    k: CounterKey,
)
    requires
        pre.wf(),
        post.wf(),
        post.limits_for_namespace@.len() == pre.limits_for_namespace@.len(),
        0 <= i < pre.limits_for_namespace@.len(),
        forall|ii: int|
            0 <= ii < pre.limits_for_namespace@.len() && ii != i
                ==> post.limits_for_namespace@[ii] == pre.limits_for_namespace@[ii],
        post.limits_for_namespace@[i].namespace@ == pre.limits_for_namespace@[i].namespace@,
        0 <= j < pre.limits_for_namespace@[i].limits@.len(),
        post.limits_for_namespace@[i].limits@ == pre.limits_for_namespace@[i].limits@.remove(j),
        pre.limits_for_namespace@[i].limits@[j].limit@ == lv,
        l != lv,
    ensures
        post.associated(l, k) == pre.associated(l, k),
{
    let pres = pre.limits_for_namespace@;
    let posts = post.limits_for_namespace@;
    let olims = pres[i].limits@;
    let nlims = posts[i].limits@;
    assert(forall|b: int|
        0 <= b < nlims.len() ==> nlims[b] == (if b < j {
            olims[b]
        } else {
            olims[b + 1]
        }));
    if pre.associated(l, k) {
        let ii = choose|ii: int| 0 <= ii < pres.len() && pres[ii].assoc(l, k);
        if ii != i {
            assert(posts[ii] == pres[ii]);
            assert(post.associated(l, k));
        } else {
            let a = choose|a: int|
                0 <= a < olims.len() && olims[a].limit@ == l && olims[a].has_counter(k);
            assert(a != j);
            let na: int = if a < j { a } else { a - 1 };
            assert(nlims[na] == olims[a]);
            assert(posts[i].assoc(l, k));
            assert(post.associated(l, k));
        }
    }
    if post.associated(l, k) {
        let ii = choose|ii: int| 0 <= ii < posts.len() && posts[ii].assoc(l, k);
        if ii != i {
            assert(pres[ii] == posts[ii]);
            assert(pre.associated(l, k));
        } else {
            let a = choose|a: int|
                0 <= a < nlims.len() && nlims[a].limit@ == l && nlims[a].has_counter(k);
            let pa: int = if a < j { a } else { a + 1 };
            assert(olims[pa] == nlims[a]);
            assert(pres[i].assoc(l, k));
            assert(pre.associated(l, k));
        }
    }
}

} // verus!

verus! {

impl<C: Clock> WasmStorage<C> {
    /// Removes from the cache every counter associated with any limit of
    /// `namespace`; the index itself is untouched.
    fn delete_counters_in_namespace(&mut self, namespace: &str)
        requires
            old(self).wf(),
        ensures
            final(self).wf(),
            final(self).clock == old(self).clock,
            final(self).limits_for_namespace == old(self).limits_for_namespace,
            forall|k: CounterKey|
                old(self).ns_associated(namespace@, k) ==> final(self).entry_of(k) == None::<
                EntryV,
            >,
            forall|k: CounterKey|
                !old(self).ns_associated(namespace@, k) ==> final(self).entry_of(k) == old(
                    self,
                ).entry_of(k),
    {
        match self.find_ns(namespace) {
            Some(i) => {
                let nlimits = self.limits_for_namespace[i].limits.len();
                let mut a: usize = 0;
                while a < nlimits
                    invariant
                        self.wf(),
                        self.limits_for_namespace == old(self).limits_for_namespace,
                        self.clock == old(self).clock,
                        i < self.limits_for_namespace@.len(),
                        self.limits_for_namespace@[i as int].namespace@ == namespace@,
                        nlimits == self.limits_for_namespace@[i as int].limits@.len(),
                        a <= nlimits,
                        forall|k: CounterKey|
                            (exists|b: int|
                                0 <= b < a && (#[trigger] self.limits_for_namespace@[
                                    i as int
                                ].limits@[b]).has_counter(k)) ==> self.entry_of(k) == None::<
                            EntryV,
                        >,
                        forall|k: CounterKey|
                            !(exists|b: int|
                                0 <= b < a && (#[trigger] self.limits_for_namespace@[
                                    i as int
                                ].limits@[b]).has_counter(k)) ==> self.entry_of(k) == old(
                                self,
                            ).entry_of(k),
                    decreases nlimits - a,
                {
                    let ghost pre = *self;
                    let lim = self.limits_for_namespace[i].limits[a].limit.duplicate();
                    self.delete_counters_of_limit(&lim);
                    a += 1;
                    proof {
                        let entry = self.limits_for_namespace@[i as int];
                        let slot = entry.limits@[a - 1];
                        assert(lim@ == slot.limit@);
                        assert forall|k: CounterKey|
                            pre.associated(lim@, k) == slot.has_counter(k) by {
                            if pre.associated(lim@, k) {
                                let ii = choose|ii: int|
                                    0 <= ii < pre.limits_for_namespace@.len()
                                        && pre.limits_for_namespace@[ii].assoc(lim@, k);
                                let aa = choose|aa: int|
                                    0 <= aa < pre.limits_for_namespace@[ii].limits@.len()
                                        && pre.limits_for_namespace@[ii].limits@[aa].limit@ == lim@
                                        && pre.limits_for_namespace@[ii].limits@[aa].has_counter(
                                        k,
                                    );
                                assert(pre.limits_for_namespace@[ii].namespace@ == lim@.namespace);
                                lemma_unique_ns_index(pre, lim@.namespace, ii, i as int);
                                lemma_unique_limit_index(entry, lim@, aa, a - 1);
                            }
                            if slot.has_counter(k) {
                                assert(entry.assoc(lim@, k));
                                assert(pre.associated(lim@, k));
                            }
                        }
                        assert forall|k: CounterKey|
                            (exists|b: int|
                                0 <= b < a && (#[trigger] entry.limits@[b]).has_counter(k))
                                implies self.entry_of(k) == None::<EntryV> by {
                            let b = choose|b: int|
                                0 <= b < a && entry.limits@[b].has_counter(k);
                            if b == a - 1 {
                                assert(pre.associated(lim@, k));
                            } else {
                                assert(pre.entry_of(k) == None::<EntryV>);
                                if !pre.associated(lim@, k) {
                                    assert(self.entry_of(k) == pre.entry_of(k));
                                }
                            }
                        }
                        assert forall|k: CounterKey|
                            !(exists|b: int|
                                0 <= b < a && (#[trigger] entry.limits@[b]).has_counter(k))
                                implies self.entry_of(k) == old(self).entry_of(k) by {
                            assert(!entry.limits@[a - 1].has_counter(k));
                            assert(!pre.associated(lim@, k));
                            assert(pre.entry_of(k) == old(self).entry_of(k));
                            assert(self.entry_of(k) == pre.entry_of(k));
                        }
                    }
                }
                proof {
                    let entry = self.limits_for_namespace@[i as int];
                    assert forall|k: CounterKey|
                        old(self).ns_associated(namespace@, k) implies self.entry_of(k) == None::<
                        EntryV,
                    > by {
                        let l = choose|l: LimitV|
                            #[trigger] old(self).associated(l, k) && l.namespace == namespace@;
                        let ii = choose|ii: int|
                            0 <= ii < old(self).limits_for_namespace@.len() && old(
                                self,
                            ).limits_for_namespace@[ii].assoc(l, k);
                        let aa = choose|aa: int|
                            0 <= aa < old(self).limits_for_namespace@[ii].limits@.len() && old(
                                self,
                            ).limits_for_namespace@[ii].limits@[aa].limit@ == l && old(
                                self,
                            ).limits_for_namespace@[ii].limits@[aa].has_counter(k);
                            assert(old(self).limits_for_namespace@[ii].namespace@ == namespace@);
                        lemma_unique_ns_index(*old(self), namespace@, ii, i as int);
                        assert(entry.limits@[aa].has_counter(k));
                    }
                    assert forall|k: CounterKey|
                        !old(self).ns_associated(namespace@, k) implies self.entry_of(k) == old(
                            self,
                        ).entry_of(k) by {
                        if exists|b: int|
                            0 <= b < nlimits && (#[trigger] entry.limits@[b]).has_counter(k) {
                            let b = choose|b: int|
                                0 <= b < nlimits && entry.limits@[b].has_counter(k);
                            let l = entry.limits@[b].limit@;
                            assert(entry.assoc(l, k));
                            assert(old(self).associated(l, k));
                            assert(l.namespace == namespace@);
                            assert(old(self).ns_associated(namespace@, k));
                        }
                    }
                }
            },
            None => {
                proof {
                    assert forall|k: CounterKey|
                        !old(self).ns_associated(namespace@, k) by {
                        if old(self).ns_associated(namespace@, k) {
                            let l = choose|l: LimitV|
                                #[trigger] old(self).associated(l, k) && l.namespace == namespace@;
                            let ii = choose|ii: int|
                                0 <= ii < self.limits_for_namespace@.len()
                                    && self.limits_for_namespace@[ii].assoc(l, k);
                            let aa = choose|aa: int|
                                0 <= aa < self.limits_for_namespace@[ii].limits@.len()
                                    && self.limits_for_namespace@[ii].limits@[aa].limit@ == l
                                    && self.limits_for_namespace@[ii].limits@[aa].has_counter(k);
                            assert(self.limits_for_namespace@[ii].namespace@ == namespace@);
                        }
                    }
                }
            },
        }
    }

    /// Removes every counter of every limit in `namespace` from the cache,
    /// then removes the whole namespace entry. Never fails.
    pub fn delete_limits(&mut self, namespace: &str) -> (r: Result<(), StorageErr>)
        requires
            old(self).wf(),
        ensures
            r is Ok,
            final(self).wf(),
            final(self).clock == old(self).clock,
            forall|l: LimitV| !final(self).registered_in(namespace@, l),
            forall|n: Seq<char>, l: LimitV|
                n != namespace@ ==> final(self).registered_in(n, l) == old(self).registered_in(
                    n,
                    l,
                ),
            forall|l: LimitV, k: CounterKey|
                l.namespace == namespace@ ==> !final(self).associated(l, k),
            forall|l: LimitV, k: CounterKey|
                l.namespace != namespace@ ==> final(self).associated(l, k) == old(
                    self,
                ).associated(l, k),
            forall|k: CounterKey|
                old(self).ns_associated(namespace@, k) ==> final(self).entry_of(k) == None::<
                EntryV,
            >,
            forall|k: CounterKey|
                !old(self).ns_associated(namespace@, k) ==> final(self).entry_of(k) == old(
                    self,
                ).entry_of(k),
    {
        self.delete_counters_in_namespace(namespace);
        let ghost mid = *self;
        match self.find_ns(namespace) {
            Some(i) => {
                let ghost olds = self.limits_for_namespace@;
                let _ = self.limits_for_namespace.remove(i);
                proof {
                    let news = self.limits_for_namespace@;
                    assert(news == olds.remove(i as int));
                    assert forall|ii: int|
                        0 <= ii < news.len() implies news[ii] == (if ii < i {
                        olds[ii]
                    } else {
                        olds[ii + 1]
                    }) by {}
                    assert(self.wf()) by {
                        assert forall|x: int, y: int|
                            0 <= x < y < news.len() implies news[x].namespace@
                            != news[y].namespace@ by {
                            let px: int = if x < i { x } else { x + 1 };
                            let py: int = if y < i { y } else { y + 1 };
                            assert(olds[px].namespace@ != olds[py].namespace@);
                        }
                        assert forall|x: int|
                            0 <= x < news.len() implies (#[trigger] news[x]).wf() by {
                            let px: int = if x < i { x } else { x + 1 };
                            assert(olds[px].wf());
                        }
                    }
                    assert forall|l: LimitV| !self.registered_in(namespace@, l) by {
                        if self.registered_in(namespace@, l) {
                            let ii = choose|ii: int|
                                0 <= ii < news.len() && news[ii].namespace@ == namespace@
                                    && news[ii].has_limit(l);
                            let pi: int = if ii < i { ii } else { ii + 1 };
                            assert(olds[pi].namespace@ == namespace@);
                            lemma_unique_ns_index(mid, namespace@, pi, i as int);
                        }
                    }
                    assert forall|n: Seq<char>, l: LimitV|
                        n != namespace@ implies self.registered_in(n, l) == mid.registered_in(
                        n,
                        l,
                    ) by {
                        if mid.registered_in(n, l) {
                            let ii = choose|ii: int|
                                0 <= ii < olds.len() && olds[ii].namespace@ == n
                                    && olds[ii].has_limit(l);
                            assert(ii != i);
                            let ni: int = if ii < i { ii } else { ii - 1 };
                            assert(news[ni] == olds[ii]);
                            assert(self.registered_in(n, l));
                        }
                        if self.registered_in(n, l) {
                            let ii = choose|ii: int|
                                0 <= ii < news.len() && news[ii].namespace@ == n
                                    && news[ii].has_limit(l);
                            let pi: int = if ii < i { ii } else { ii + 1 };
                            assert(olds[pi] == news[ii]);
                            assert(mid.registered_in(n, l));
                        }
                    }
                    assert forall|l: LimitV, k: CounterKey|
                        l.namespace == namespace@ implies !self.associated(l, k) by {
                        if self.associated(l, k) {
                            let ii = choose|ii: int| 0 <= ii < news.len() && news[ii].assoc(l, k);
                            let aa = choose|aa: int|
                                0 <= aa < news[ii].limits@.len() && news[ii].limits@[aa].limit@
                                    == l && news[ii].limits@[aa].has_counter(k);
                            assert(news[ii].namespace@ == l.namespace);
                            let pi: int = if ii < i { ii } else { ii + 1 };
                            assert(olds[pi].namespace@ == namespace@);
                            lemma_unique_ns_index(mid, namespace@, pi, i as int);
                        }
                    }
                    assert forall|l: LimitV, k: CounterKey|
                        l.namespace != namespace@ implies self.associated(l, k) == mid.associated(
                        l,
                        k,
                    ) by {
                        if mid.associated(l, k) {
                            let ii = choose|ii: int| 0 <= ii < olds.len() && olds[ii].assoc(l, k);
                            let aa = choose|aa: int|
                                0 <= aa < olds[ii].limits@.len() && olds[ii].limits@[aa].limit@
                                    == l && olds[ii].limits@[aa].has_counter(k);
                            assert(olds[ii].namespace@ == l.namespace);
                            assert(ii != i);
                            let ni: int = if ii < i { ii } else { ii - 1 };
                            assert(news[ni] == olds[ii]);
                            assert(self.associated(l, k));
                        }
                        if self.associated(l, k) {
                            let ii = choose|ii: int| 0 <= ii < news.len() && news[ii].assoc(l, k);
                            let pi: int = if ii < i { ii } else { ii + 1 };
                            assert(olds[pi] == news[ii]);
                            assert(mid.associated(l, k));
                        }
                    }
                    assert(self.counters == mid.counters);
                }
            },
            None => {
                proof {
                    assert(*self == mid);
                    assert forall|l: LimitV| !self.registered_in(namespace@, l) by {
                        if self.registered_in(namespace@, l) {
                            let ii = choose|ii: int|
                                0 <= ii < self.limits_for_namespace@.len()
                                    && self.limits_for_namespace@[ii].namespace@ == namespace@
                                    && self.limits_for_namespace@[ii].has_limit(l);
                            assert(self.limits_for_namespace@[ii].namespace@ != namespace@);
                        }
                    }
                    assert forall|l: LimitV, k: CounterKey|
                        l.namespace == namespace@ implies !self.associated(l, k) by {
                        if self.associated(l, k) {
                            let ii = choose|ii: int|
                                0 <= ii < self.limits_for_namespace@.len()
                                    && self.limits_for_namespace@[ii].assoc(l, k);
                            let aa = choose|aa: int|
                                0 <= aa < self.limits_for_namespace@[ii].limits@.len()
                                    && self.limits_for_namespace@[ii].limits@[aa].limit@ == l
                                    && self.limits_for_namespace@[ii].limits@[aa].has_counter(k);
                            assert(self.limits_for_namespace@[ii].namespace@ == l.namespace);
                        }
                    }
                }
            },
        }
        proof {
            lemma_index_untouched(*old(self), mid);
            assert(self.counters == mid.counters);
            assert forall|k: CounterKey|
                old(self).ns_associated(namespace@, k) implies self.entry_of(k) == None::<
                EntryV,
            > by {
                assert(mid.entry_of(k) == None::<EntryV>);
                assert(self.entry_of(k) == mid.entry_of(k));
            }
            assert forall|k: CounterKey|
                !old(self).ns_associated(namespace@, k) implies self.entry_of(k) == old(
                    self,
                ).entry_of(k) by {
                assert(mid.entry_of(k) == old(self).entry_of(k));
                assert(self.entry_of(k) == mid.entry_of(k));
            }
            assert forall|n: Seq<char>, l: LimitV|
                n != namespace@ implies self.registered_in(n, l) == old(self).registered_in(
                n,
                l,
            ) by {
                assert(self.registered_in(n, l) == mid.registered_in(n, l));
                assert(mid.registered_in(n, l) == old(self).registered_in(n, l));
            }
            assert forall|l: LimitV, k: CounterKey|
                l.namespace != namespace@ implies self.associated(l, k) == old(self).associated(
                l,
                k,
            ) by {
                assert(self.associated(l, k) == mid.associated(l, k));
                assert(mid.associated(l, k) == old(self).associated(l, k));
            }
        }
        Ok(())
    }

    /// Whether counter identity `k` belongs to `namespace` and has a live
    /// cache entry: exactly what a [`WasmStorage::get_counters`] snapshot
    /// shows.
    pub open spec fn live_counter_in(&self, k: CounterKey, n: Seq<char>) -> bool {
        k.limit.namespace == n && match self.entry_of(k) {
            Some(e) => e.expires_at >= self.now(),
            None => false,
        }
    }

    /// A snapshot of all live (non-expired) counters of `namespace`, each
    /// with its stored value and its remaining TTL in milliseconds (expiry
    /// minus now). Order is unspecified. Never fails.
    pub fn get_counters(&mut self, namespace: &str) -> (r: Result<
        Vec<(Counter, i64, u64)>,
        StorageErr,
    >)
        requires
            old(self).wf(),
        ensures
            *final(self) == *old(self),
            r is Ok,
            forall|t: int|
                0 <= t < r->Ok_0@.len() ==> old(self).live_counter_in(
                    (#[trigger] r->Ok_0@[t]).0.key(),
                    namespace@,
                ),
            forall|t: int|
                0 <= t < r->Ok_0@.len() ==> (match old(self).entry_of(
                    (#[trigger] r->Ok_0@[t]).0.key(),
                ) {
                    Some(e) => e.value == r->Ok_0@[t].1 as int && e.expires_at - old(self).now()
                        == r->Ok_0@[t].2 as int,
                    None => false,
                }),
            forall|k: CounterKey|
                old(self).live_counter_in(k, namespace@) ==> exists|t: int|
                    0 <= t < r->Ok_0@.len() && (#[trigger] r->Ok_0@[t]).0.key() == k,
            forall|s: int, t: int|
                0 <= s < t < r->Ok_0@.len() ==> r->Ok_0@[s].0.key() != r->Ok_0@[t].0.key(),
    {
        let now = self.clock.get_current_time();
        let all = self.counters.get_all(now);
        let mut out: Vec<(Counter, i64, u64)> = Vec::new();
        let ghost mut src: Seq<int> = Seq::empty();
        let mut t: usize = 0;
        while t < all.len()
            invariant
                self.wf(),
                *self == *old(self),
                now == self.now(),
                forall|u: int|
                    0 <= u < all@.len() ==> self.entry_of((#[trigger] all@[u]).0.key()) == Some(
                        EntryV { value: all@[u].1 as int, expires_at: all@[u].2 as int },
                    ) && now <= all@[u].2,
                forall|k: CounterKey|
                    (match #[trigger] self.entry_of(k) {
                        Some(e) => e.expires_at >= now,
                        None => false,
                    }) ==> exists|u: int| 0 <= u < all@.len() && (#[trigger] all@[u]).0.key() == k,
                forall|u: int, u2: int|
                    0 <= u < u2 < all@.len() ==> all@[u].0.key() != all@[u2].0.key(),
                t <= all@.len(),
                src.len() == out@.len(),
                forall|x: int| 0 <= x < src.len() ==> 0 <= #[trigger] src[x] < t,
                forall|x: int, y: int| 0 <= x < y < src.len() ==> src[x] < src[y],
                forall|x: int|
                    0 <= x < out@.len() ==> (#[trigger] out@[x]).0.key() == all@[src[x]].0.key()
                        && out@[x].1 == all@[src[x]].1 && out@[x].2 == all@[src[x]].2 - now
                        && out@[x].0.key().limit.namespace == namespace@,
                forall|u: int|
                    0 <= u < t && (#[trigger] all@[u]).0.key().limit.namespace == namespace@
                        ==> exists|x: int| 0 <= x < src.len() && src[x] == u,
            decreases all@.len() - t,
        {
            let ghost oldsrc = src;
            let ns_match = str_eq(all[t].0.limit.namespace.as_str(), namespace);
            if ns_match {
                let c = all[t].0.duplicate();
                let ttl: u64 = all[t].2 - now;
                out.push((c, all[t].1, ttl));
                proof {
                    src = src.push(t as int);
                }
            }
            t += 1;
            proof {
                assert forall|u: int|
                    0 <= u < t && (#[trigger] all@[u]).0.key().limit.namespace == namespace@
                        implies exists|x: int| 0 <= x < src.len() && src[x] == u by {
                    if u < t - 1 {
                        let x = choose|x: int| 0 <= x < oldsrc.len() && oldsrc[x] == u;
                        assert(src[x] == u);
                    } else {
                        assert(all@[u].0.key().limit.namespace
                            == all@[u].0.limit@.namespace);
                        assert(ns_match);
                        assert(src[src.len() - 1] == u);
                    }
                }
            }
        }
        proof {
            assert forall|x: int|
                0 <= x < out@.len() implies self.live_counter_in(
                (#[trigger] out@[x]).0.key(),
                namespace@,
            ) by {
                assert(self.entry_of(out@[x].0.key()) == Some(
                    EntryV {
                        value: all@[src[x]].1 as int,
                        expires_at: all@[src[x]].2 as int,
                    },
                ));
            }
            assert forall|k: CounterKey|
                self.live_counter_in(k, namespace@) implies exists|x: int|
                0 <= x < out@.len() && (#[trigger] out@[x]).0.key() == k by {
                let u = choose|u: int| 0 <= u < all@.len() && (#[trigger] all@[u]).0.key() == k;
                assert(all@[u].0.key().limit.namespace == namespace@);
                let x = choose|x: int| 0 <= x < src.len() && src[x] == u;
                assert(out@[x].0.key() == k);
            }
            assert forall|s2: int, t2: int|
                0 <= s2 < t2 < out@.len() implies out@[s2].0.key() != out@[t2].0.key() by {
                assert(src[s2] < src[t2]);
                assert(all@[src[s2]].0.key() != all@[src[t2]].0.key());
            }
        }
        Ok(out)
    }
}

} // verus!

verus! {

/// Law: a counter with no prior entry is within limits exactly for the
/// weights up to its limit's capacity — and over it for any larger weight.
pub proof fn lemma_fresh_counter_within_limits<C: Clock>(
    s: WasmStorage<C>,
    k: CounterKey,
    delta: int,
)
    requires
        s.entry_of(k) == None::<EntryV>,
    ensures
        s.within_limits(k, delta) == (delta <= k.limit.max_value),
{
}

/// Total weight of a sequence of update deltas.
pub open spec fn sum_deltas(ds: Seq<int>) -> int
    decreases ds.len(),
{
    if ds.len() == 0 {
        0
    } else {
        sum_deltas(ds.drop_last()) + ds.last()
    }
}

/// The entry left by replaying `update_counter` with weights `ds` at
/// instants `times` (positionally paired), starting from no entry.
pub open spec fn entry_after_seq(max: int, seconds: int, ds: Seq<int>, times: Seq<int>) -> Option<
    EntryV,
>
    decreases ds.len(),
{
    if ds.len() == 0 {
        None
    } else {
        Some(
            entry_after(
                entry_after_seq(max, seconds, ds.drop_last(), times.drop_last()),
                max,
                seconds,
                ds.last(),
                times.last(),
            ),
        )
    }
}

/// Law: a run of updates with no expiry elapsed between them accumulates:
/// the stored value ends at `max - sum(ds)` (which may be negative) and the
/// expiry stands where the first update set it.
pub proof fn lemma_updates_accumulate(max: int, seconds: int, ds: Seq<int>, times: Seq<int>)
    requires
        ds.len() == times.len(),
        ds.len() >= 1,
        forall|i: int| 1 <= i < times.len() ==> #[trigger] times[i] <= times[0] + seconds * 1000,
    ensures
        entry_after_seq(max, seconds, ds, times) == Some(
            EntryV { value: max - sum_deltas(ds), expires_at: times[0] + seconds * 1000 },
        ),
    decreases ds.len(),
{
    if ds.len() == 1 {
        assert(ds.drop_last().len() == 0);
        assert(entry_after_seq(max, seconds, ds.drop_last(), times.drop_last()) == None::<EntryV>);
        assert(sum_deltas(ds.drop_last()) == 0);
        assert(ds.last() == ds[0]);
        assert(sum_deltas(ds) == ds[0]);
    } else {
        let dsp = ds.drop_last();
        let tsp = times.drop_last();
        assert(tsp[0] == times[0]);
        assert forall|i: int| 1 <= i < tsp.len() implies #[trigger] tsp[i] <= tsp[0] + seconds
            * 1000 by {
            assert(tsp[i] == times[i]);
        }
        lemma_updates_accumulate(max, seconds, dsp, tsp);
        assert(times.last() <= times[0] + seconds * 1000);
    }
}

/// Law: once an entry is expired at `now`, the next update resets it exactly
/// as if it had never existed: the pre-expiry stored state has no residual
/// effect.
pub proof fn lemma_expired_reset_forgets_state(
    e: Option<EntryV>,
    max: int,
    seconds: int,
    delta: int,
    now: int,
)
    requires
        !live_at(e, now),
    ensures
        entry_after(e, max, seconds, delta, now) == entry_after(None, max, seconds, delta, now),
{
}

/// Law: deleting a limit hides exactly its counters from later snapshots.
/// In a store where every counter associated with `l` has lost its entry and
/// every other entry is untouched, no counter of `l` is live in any
/// namespace, while every other counter keeps its visibility.
pub proof fn lemma_delete_limit_hides_counters<C: Clock>(
    pre: WasmStorage<C>,
    post: WasmStorage<C>,
    l: LimitV,
    n: Seq<char>,
)
    requires
        forall|k: CounterKey|
            #[trigger] pre.associated(l, k) ==> post.entry_of(k) == None::<EntryV>,
        forall|k: CounterKey|
            !(#[trigger] pre.associated(l, k)) ==> post.entry_of(k) == pre.entry_of(k),
        post.now() == pre.now(),
    ensures
        forall|k: CounterKey| #[trigger] pre.associated(l, k) ==> !post.live_counter_in(k, n),
        forall|k: CounterKey|
            !(#[trigger] pre.associated(l, k)) ==> post.live_counter_in(k, n)
                == pre.live_counter_in(k, n),
{
}

} // verus!
