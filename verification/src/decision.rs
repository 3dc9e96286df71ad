//! Batch decision algorithm shared by networked backends.

use vstd::prelude::*;
use vstd::pervasive::VecAdditionalExecFns;
use crate::counter::Counter;

verus! {

/// Default period between flushes of a write-back cache to the shared store,
/// in seconds.
pub const DEFAULT_FLUSHING_PERIOD_SEC: u64 = 1;

/// Default number of counter updates grouped into one round trip.
pub const DEFAULT_BATCH_SIZE: usize = 100;

/// Default cap on locally cached counters.
pub const DEFAULT_MAX_CACHED_COUNTERS: usize = 10000;

/// Default bound on a single round trip to the shared store, in milliseconds.
pub const DEFAULT_RESPONSE_TIMEOUT_MS: u64 = 350;

/// The outcome of a batch decision that denied the request: carries the
/// optional name of the first exceeded counter's limit, in input order.
pub enum Authorization {
    Limited(Option<String>),
}

/// The limit name an [`Authorization`] reports.
pub open spec fn auth_name(a: Authorization) -> Option<Seq<char>> {
    match a {
        Authorization::Limited(n) => n.deep_view(),
    }
}

/// The raw stored value of one counter: an absent slot means the key did not
/// previously exist and counts as zero consumed.
pub open spec fn stored_of(v: Option<i64>) -> int {
    match v {
        Some(x) => x as int,
        None => 0,
    }
}

/// Budget left after consuming `stored + delta` out of `max`: none when the
/// capacity is exceeded, so the subtraction never wraps.
pub open spec fn remaining_of(max: int, stored: int, delta: int) -> Option<int> {
    if stored + delta > max {
        None
    } else {
        Some(max - (stored + delta))
    }
}

/// The remaining value written back to a counter: the computed budget, or
/// zero (clamped display) when the capacity is exceeded.
pub open spec fn remaining_display(max: int, stored: int, delta: int) -> int {
    match remaining_of(max, stored, delta) {
        Some(v) => v,
        None => 0,
    }
}

/// The `expires_in` written back to a counter: the reported TTL when present
/// and non-negative, else the counter's configured window (`window_ms`).
/// A negative TTL is the backend's "no expiry currently set" sentinel.
pub open spec fn expires_in_of(ttl: Option<i64>, window_ms: int) -> int {
    match ttl {
        Some(x) => if x >= 0 {
            x as int
        } else {
            window_ms
        },
        None => window_ms,
    }
}

/// Whether counter `i` of the batch is exceeded by this request.
pub open spec fn exceeded_at(
    counters: Seq<Counter>,
    script_res: Seq<Option<i64>>,
    delta: int,
    i: int,
) -> bool {
    remaining_of(counters[i].limit@.max_value as int, stored_of(script_res[2 * i]), delta)
        is None
}

/// Whether the whole batch stays within capacity, so the request is allowed.
pub open spec fn batch_allowed(
    counters: Seq<Counter>,
    script_res: Seq<Option<i64>>,
    delta: int,
) -> bool {
    forall|i: int|
        0 <= i < counters.len() ==> !exceeded_at(counters, script_res, delta, i)
}

/// The batch decision algorithm. `script_res` is the flat, positionally
/// paired result of one atomic read-and-increment: element `2i` is counter
/// `i`'s raw stored value (absent: first use) and element `2i + 1` its
/// remaining TTL in milliseconds (absent or negative: no expiry set).
///
/// Every counter's `remaining` and `expires_in` are refreshed, whichever
/// counter denies the request; the outcome reports only the first exceeded
/// counter in input order.
pub fn is_limited(counters: &mut Vec<Counter>, delta: u64, script_res: Vec<Option<i64>>) -> (r:
    Option<Authorization>)
    requires
        script_res@.len() == 2 * old(counters)@.len(),
        forall|i: int|
            0 <= i < old(counters)@.len() ==> (#[trigger] old(counters)@[i]).limit@.seconds * 1000
                <= u64::MAX,
        forall|i: int|
            0 <= i < old(counters)@.len() ==> (match #[trigger] script_res@[2 * i] {
                Some(v) => v >= 0 && v + delta <= u64::MAX,
                None => true,
            }),
    ensures
        final(counters)@.len() == old(counters)@.len(),
        forall|i: int|
            0 <= i < old(counters)@.len() ==> (#[trigger] final(counters)@[i]).key() == old(
                counters,
            )@[i].key(),
        forall|i: int|
            0 <= i < old(counters)@.len() ==> (#[trigger] final(counters)@[i]).remaining
                == remaining_display(
                old(counters)@[i].limit@.max_value as int,
                stored_of(script_res@[2 * i]),
                delta as int,
            ),
        forall|i: int|
            0 <= i < old(counters)@.len() ==> (#[trigger] final(counters)@[i]).expires_in
                == expires_in_of(
                script_res@[2 * i + 1],
                old(counters)@[i].limit@.seconds * 1000,
            ),
        (r is None) == batch_allowed(old(counters)@, script_res@, delta as int),
        match r {
            None => true,
            Some(a) => exists|i: int|
                0 <= i < old(counters)@.len() && #[trigger] exceeded_at(
                    old(counters)@,
                    script_res@,
                    delta as int,
                    i,
                ) && (forall|j: int|
                    0 <= j < i ==> !exceeded_at(old(counters)@, script_res@, delta as int, j))
                    && auth_name(a) == old(counters)@[i].limit@.name,
        },
{
    let n = counters.len();
    let m = script_res.len();
    proof {
        assert(m == 2 * n);
        assert(2 * n <= usize::MAX);
    }
    let mut first: Option<Authorization> = None;
    let ghost mut gfi: int = 0;
    let mut i: usize = 0;
    while i < n
        invariant
            n == old(counters)@.len(),
            counters@.len() == n,
            script_res@.len() == 2 * n,
            2 * n <= usize::MAX,
            i <= n,
            forall|j: int|
                0 <= j < n ==> (#[trigger] old(counters)@[j]).limit@.seconds * 1000 <= u64::MAX,
            forall|j: int|
                0 <= j < n ==> (match #[trigger] script_res@[2 * j] {
                    Some(v) => v >= 0 && v + delta <= u64::MAX,
                    None => true,
                }),
            forall|j: int| i <= j < n ==> #[trigger] counters@[j] == old(counters)@[j],
            forall|j: int|
                0 <= j < i ==> (#[trigger] counters@[j]).key() == old(counters)@[j].key(),
            forall|j: int|
                0 <= j < i ==> (#[trigger] counters@[j]).remaining == remaining_display(
                    old(counters)@[j].limit@.max_value as int,
                    stored_of(script_res@[2 * j]),
                    delta as int,
                ),
            forall|j: int|
                0 <= j < i ==> (#[trigger] counters@[j]).expires_in == expires_in_of(
                    script_res@[2 * j + 1],
                    old(counters)@[j].limit@.seconds * 1000,
                ),
            match first {
                None => forall|j: int|
                    0 <= j < i ==> !exceeded_at(old(counters)@, script_res@, delta as int, j),
                Some(a) => 0 <= gfi < i && exceeded_at(
                    old(counters)@,
                    script_res@,
                    delta as int,
                    gfi,
                ) && (forall|j: int|
                    0 <= j < gfi ==> !exceeded_at(old(counters)@, script_res@, delta as int, j))
                    && auth_name(a) == old(counters)@[gfi].limit@.name,
            },
        decreases n - i,
    {
        let max = counters[i].max_value();
        let stored: u64 = match script_res[2 * i] {
            Some(v) => v as u64,
            None => 0,
        };
        let total: u64 = stored + delta;
        let exceeded: bool = total > max;
        let rem_display: u64 = if exceeded {
            0
        } else {
            max - total
        };
        let window: u64 = counters[i].window_ms();
        let expires: u64 = match script_res[2 * i + 1] {
            Some(x) => if x >= 0 {
                x as u64
            } else {
                window
            },
            None => window,
        };
        let nc = counters[i].with_state(rem_display, expires);
        counters.set(i, nc);
        if first.is_none() && exceeded {
            let name = match &counters[i].limit.name {
                Some(nm) => Some(nm.clone()),
                None => None,
            };
            first = Some(Authorization::Limited(name));
            proof {
                gfi = i as int;
                assert(counters@[i as int].key() == old(counters)@[i as int].key());
                assert(counters@[i as int].limit@ == old(counters)@[i as int].limit@);
            }
        }
        i += 1;
    }
    proof {
        match &first {
            None => {
                assert(batch_allowed(old(counters)@, script_res@, delta as int));
            },
            Some(a) => {
                assert(exceeded_at(old(counters)@, script_res@, delta as int, gfi));
                assert(!batch_allowed(old(counters)@, script_res@, delta as int));
            },
        }
    }
    first
}

/// Law: when every counter of the batch still has budget for `stored +
/// delta`, the batch is allowed.
pub proof fn lemma_under_capacity_allowed(
    counters: Seq<Counter>,
    script_res: Seq<Option<i64>>,
    delta: int,
)
    requires
        forall|i: int|
            0 <= i < counters.len() ==> remaining_of(
                (#[trigger] counters[i]).limit@.max_value as int,
                stored_of(script_res[2 * i]),
                delta,
            ) is Some,
    ensures
        batch_allowed(counters, script_res, delta),
{
}

/// Law: a value reported as present with a non-negative TTL always yields
/// `expires_in` equal to that TTL, never the counter's static window.
pub proof fn lemma_reported_ttl_kept(ttl: i64, window_ms: int)
    requires
        ttl >= 0,
    ensures
        expires_in_of(Some(ttl), window_ms) == ttl,
{
}

} // verus!
