//! Immutable description of a rate-limiting rule.

use vstd::prelude::*;

verus! {

/// Mathematical value of a [`Limit`]: every field taken down to sequences of
/// characters and plain integers. Two limits are the same limit exactly when
/// their views are equal.
pub ghost struct LimitV {
    pub namespace: Seq<char>,
    pub max_value: u64,
    pub seconds: u64,
    pub name: Option<Seq<char>>,
    pub conditions: Seq<Seq<char>>,
    pub variables: Seq<Seq<char>>,
}

/// A rate-limiting rule: within `namespace`, at most `max_value` units may be
/// consumed per rolling window of `seconds` seconds. `name` is an optional
/// label for user-facing reporting; `conditions` and `variables` record which
/// request dimensions a concrete counter is keyed by. Immutable once built;
/// identity is the full definition.
pub struct Limit {
    pub namespace: String,
    pub max_value: u64,
    pub seconds: u64,
    pub name: Option<String>,
    pub conditions: Vec<String>,
    pub variables: Vec<String>,
}

impl View for Limit {
    type V = LimitV;

    open spec fn view(&self) -> LimitV {
        LimitV {
            namespace: self.namespace@,
            max_value: self.max_value,
            seconds: self.seconds,
            name: self.name.deep_view(),
            conditions: self.conditions.deep_view(),
            variables: self.variables.deep_view(),
        }
    }
}

/// Relies on `str`'s equality operator: true exactly when the two strings
/// hold the same characters.
#[verifier::external_body]
pub(crate) fn str_eq(a: &str, b: &str) -> (r: bool)
    ensures
        r == (a@ == b@),
{
    a == b
}

/// Clones a vector of strings, element for element.
pub(crate) fn clone_string_vec(v: &Vec<String>) -> (r: Vec<String>)
    ensures
        r@ == v@,
{
    let r = v.clone();
    proof {
        assert forall|i: int| 0 <= i < r@.len() implies r@[i] == v@[i] by {
            assert(cloned::<String>(v@[i], r@[i]));
        }
        assert(r@ =~= v@);
    }
    r
}

/// Element-wise equality of two vectors of strings, by contents.
pub(crate) fn string_vec_eq(a: &Vec<String>, b: &Vec<String>) -> (r: bool)
    ensures
        r == (a.deep_view() == b.deep_view()),
{
    if a.len() != b.len() {
        proof {
            assert(a.deep_view().len() != b.deep_view().len());
        }
        return false;
    }
    let mut i: usize = 0;
    while i < a.len()
        invariant
            i <= a@.len(),
            a@.len() == b@.len(),
            forall|j: int| 0 <= j < i ==> a@[j]@ == b@[j]@,
        decreases a@.len() - i,
    {
        if !a[i].eq(&b[i]) {
            proof {
                assert(a.deep_view()[i as int] != b.deep_view()[i as int]);
            }
            return false;
        }
        i += 1;
    }
    proof {
        assert(a.deep_view() =~= b.deep_view());
    }
    true
}

fn opt_string_eq(a: &Option<String>, b: &Option<String>) -> (r: bool)
    ensures
        r == (a.deep_view() == b.deep_view()),
{
    match (a, b) {
        (Some(x), Some(y)) => x.eq(y),
        (None, None) => true,
        _ => false,
    }
}

/// Equality of two limits by their full definition.
pub fn limit_eq(a: &Limit, b: &Limit) -> (r: bool)
    ensures
        r == (a@ == b@),
{
    let r = a.namespace.eq(&b.namespace) && a.max_value == b.max_value && a.seconds == b.seconds
        && opt_string_eq(&a.name, &b.name) && string_vec_eq(&a.conditions, &b.conditions)
        && string_vec_eq(&a.variables, &b.variables);
    proof {
        if r {
            assert(a@ == b@);
        } else {
            assert(a@ != b@);
        }
    }
    r
}

impl Limit {
    /// Builds a limit from its full definition.
    pub fn new(
        namespace: String,
        max_value: u64,
        seconds: u64,
        name: Option<String>,
        conditions: Vec<String>,
        variables: Vec<String>,
    ) -> (r: Limit)
        ensures
            r@ == (LimitV {
                namespace: namespace@,
                max_value,
                seconds,
                name: name.deep_view(),
                conditions: conditions.deep_view(),
                variables: variables.deep_view(),
            }),
    {
        Limit { namespace, max_value, seconds, name, conditions, variables }
    }

    /// A fresh limit with the same definition.
    pub fn duplicate(&self) -> (r: Limit)
        ensures
            r@ == self@,
    {
        let name = match &self.name {
            Some(n) => Some(n.clone()),
            None => None,
        };
        let r = Limit {
            namespace: self.namespace.clone(),
            max_value: self.max_value,
            seconds: self.seconds,
            name,
            conditions: clone_string_vec(&self.conditions),
            variables: clone_string_vec(&self.variables),
        };
        proof {
            assert(r.conditions.deep_view() =~= self.conditions.deep_view());
            assert(r.variables.deep_view() =~= self.variables.deep_view());
            assert(r@ == self@);
        }
        r
    }
}

} // verus!
