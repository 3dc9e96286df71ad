//! A concrete, addressable instance of a limit.

use vstd::prelude::*;
use crate::limit::{Limit, LimitV, limit_eq};

verus! {

/// Identity of a counter: its limit's definition plus the concrete values of
/// the limit's qualifying variables. The storage keys entries by this value;
/// the observed state (`remaining`, `expires_in`) is not part of it.
pub ghost struct CounterKey {
    pub limit: LimitV,
    pub set_variables: Seq<(Seq<char>, Seq<char>)>,
}

/// A tracked instance of a [`Limit`] for one set of qualifying values.
/// `remaining` and `expires_in` are observed state written by storage
/// operations only; callers treat them as read-only snapshots. `expires_in`
/// is in milliseconds.
pub struct Counter {
    pub limit: Limit,
    pub set_variables: Vec<(String, String)>,
    pub remaining: u64,
    pub expires_in: u64,
}

impl Counter {
    /// The identity under which storage addresses this counter.
    pub open spec fn key(&self) -> CounterKey {
        CounterKey { limit: self.limit@, set_variables: self.set_variables.deep_view() }
    }

    /// Builds a counter for `limit` with the given qualifying values; the
    /// observed state starts at zero until a storage call fills it.
    pub fn new(limit: Limit, set_variables: Vec<(String, String)>) -> (r: Counter)
        ensures
            r.key() == (CounterKey {
                limit: limit@,
                set_variables: set_variables.deep_view(),
            }),
            r.remaining == 0,
            r.expires_in == 0,
    {
        Counter { limit, set_variables, remaining: 0, expires_in: 0 }
    }

    /// Capacity of the owning limit.
    pub fn max_value(&self) -> (r: u64)
        ensures
            r == self.limit@.max_value,
    {
        self.limit.max_value
    }

    /// Window length of the owning limit, in seconds.
    pub fn seconds(&self) -> (r: u64)
        ensures
            r == self.limit@.seconds,
    {
        self.limit.seconds
    }

    /// Window length of the owning limit, in milliseconds.
    pub fn window_ms(&self) -> (r: u64)
        requires
            self.limit@.seconds * 1000 <= u64::MAX,
        ensures
            r == self.limit@.seconds * 1000,
    {
        self.limit.seconds * 1000
    }

    /// The owning limit.
    pub fn limit(&self) -> (r: &Limit)
        ensures
            r@ == self.limit@,
    {
        &self.limit
    }

    /// A fresh counter with the same identity and observed state.
    pub fn duplicate(&self) -> (r: Counter)
        ensures
            r.key() == self.key(),
            r.remaining == self.remaining,
            r.expires_in == self.expires_in,
    {
        let r = Counter {
            limit: self.limit.duplicate(),
            set_variables: clone_var_pairs(&self.set_variables),
            remaining: self.remaining,
            expires_in: self.expires_in,
        };
        proof {
            assert(r.set_variables.deep_view() =~= self.set_variables.deep_view());
        }
        r
    }

    /// A fresh counter with the same identity and the given observed state.
    pub fn with_state(&self, remaining: u64, expires_in: u64) -> (r: Counter)
        ensures
            r.key() == self.key(),
            r.remaining == remaining,
            r.expires_in == expires_in,
    {
        let r = Counter {
            limit: self.limit.duplicate(),
            set_variables: clone_var_pairs(&self.set_variables),
            remaining,
            expires_in,
        };
        proof {
            assert(r.set_variables.deep_view() =~= self.set_variables.deep_view());
        }
        r
    }
}

/// Clones a vector of variable/value pairs, element for element.
pub(crate) fn clone_var_pairs(v: &Vec<(String, String)>) -> (r: Vec<(String, String)>)
    ensures
        r@ == v@,
{
    let mut r: Vec<(String, String)> = Vec::new();
    let mut i: usize = 0;
    while i < v.len()
        invariant
            i <= v@.len(),
            r@.len() == i,
            forall|j: int| 0 <= j < i ==> r@[j] == v@[j],
        decreases v@.len() - i,
    {
        let p = (v[i].0.clone(), v[i].1.clone());
        proof {
            assert(p == v@[i as int]);
        }
        r.push(p);
        i += 1;
    }
    proof {
        assert(r@ =~= v@);
    }
    r
}

fn var_pairs_eq(a: &Vec<(String, String)>, b: &Vec<(String, String)>) -> (r: bool)
    ensures
        r == (a.deep_view() == b.deep_view()),
{
    if a.len() != b.len() {
        proof {
            assert(a.deep_view().len() != b.deep_view().len());
        }
        return false;
    }
    let mut i: usize = 0;
    while i < a.len()
        invariant
            i <= a@.len(),
            a@.len() == b@.len(),
            forall|j: int| 0 <= j < i ==> a@[j].deep_view() == b@[j].deep_view(),
        decreases a@.len() - i,
    {
        if !(a[i].0.eq(&b[i].0) && a[i].1.eq(&b[i].1)) {
            proof {
                assert(a.deep_view()[i as int] != b.deep_view()[i as int]);
            }
            return false;
        }
        i += 1;
    }
    proof {
        assert(a.deep_view() =~= b.deep_view());
    }
    true
}

/// Equality of two counters by identity: same limit, same qualifying values.
pub fn counter_key_eq(a: &Counter, b: &Counter) -> (r: bool)
    ensures
        r == (a.key() == b.key()),
{
    let r = limit_eq(&a.limit, &b.limit) && var_pairs_eq(&a.set_variables, &b.set_variables);
    proof {
        if r {
            assert(a.key() == b.key());
        } else {
            assert(a.key() != b.key());
        }
    }
    r
}

} // verus!
