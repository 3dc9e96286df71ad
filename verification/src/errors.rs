//! Storage error type with retryability classification.

use vstd::prelude::*;

verus! {

/// The error every backend surfaces: a human-readable message, the optional
/// underlying cause, and a `transient` flag. `transient == true` means the
/// caller may safely retry the same operation (timeout, dropped connection,
/// cluster topology error, connection refusal); `transient == false` means a
/// non-recoverable condition. The flag is the sole retry signal exposed to
/// callers.
#[derive(Debug)]
pub struct StorageErr {
    pub msg: String,
    pub source: Option<redis::RedisError>,
    pub transient: bool,
}

impl StorageErr {
    /// Whether the operation that surfaced this error may be retried.
    pub fn is_transient(&self) -> (r: bool)
        ensures
            r == self.transient,
    {
        self.transient
    }
}

/// Declares `redis::RedisError` as an opaque outside type, so that it can
/// stand in the signatures below.
#[verifier::external_type_specification]
#[verifier::external_body]
pub struct ExRedisError(redis::RedisError);

/// Whether `redis::RedisError::is_timeout` holds of the error.
pub uninterp spec fn redis_timeout_flag(e: &redis::RedisError) -> bool;

/// Whether `redis::RedisError::is_connection_dropped` holds of the error.
pub uninterp spec fn redis_dropped_flag(e: &redis::RedisError) -> bool;

/// Whether `redis::RedisError::is_cluster_error` holds of the error.
pub uninterp spec fn redis_cluster_flag(e: &redis::RedisError) -> bool;

/// Whether `redis::RedisError::is_connection_refusal` holds of the error.
pub uninterp spec fn redis_refusal_flag(e: &redis::RedisError) -> bool;

/// Relies on `redis::RedisError::is_timeout`: whether the failure was an I/O
/// timeout, a function of the error value alone.
#[verifier::external_body]
fn redis_is_timeout(e: &redis::RedisError) -> (r: bool)
    ensures
        r == redis_timeout_flag(e),
{
    e.is_timeout()
}

/// Relies on `redis::RedisError::is_connection_dropped`: whether the failure
/// was a dropped connection, a function of the error value alone.
#[verifier::external_body]
fn redis_is_connection_dropped(e: &redis::RedisError) -> (r: bool)
    ensures
        r == redis_dropped_flag(e),
{
    e.is_connection_dropped()
}

/// Relies on `redis::RedisError::is_cluster_error`: whether the failure was a
/// cluster redirection or topology error, a function of the error value
/// alone.
#[verifier::external_body]
fn redis_is_cluster_error(e: &redis::RedisError) -> (r: bool)
    ensures
        r == redis_cluster_flag(e),
{
    e.is_cluster_error()
}

/// Relies on `redis::RedisError::is_connection_refusal`: whether the failure
/// was a refused connection, a function of the error value alone.
#[verifier::external_body]
fn redis_is_connection_refusal(e: &redis::RedisError) -> (r: bool)
    ensures
        r == redis_refusal_flag(e),
{
    e.is_connection_refusal()
}

/// Relies on `ToString::to_string` through `redis::RedisError`'s `Display`
/// impl for the human-readable message. Nothing is promised of the text: an
/// error wrapping an OS-level failure renders the platform's own message,
/// which is not a function of the error value alone.
#[verifier::external_body]
fn redis_err_to_string(e: &redis::RedisError) -> String {
    e.to_string()
}

/// The classification rule: a redis failure is transient exactly when it is
/// a timeout, a dropped connection, a cluster error or a connection refusal.
pub open spec fn redis_transient(e: &redis::RedisError) -> bool {
    redis_timeout_flag(e) || redis_dropped_flag(e) || redis_cluster_flag(e) || redis_refusal_flag(
        e,
    )
}

impl StorageErr {
    /// Classifies a redis failure into the storage error type: `transient`
    /// follows [`redis_transient`], the failure itself is kept as the
    /// underlying cause, and the message carries its display text.
    pub fn from_redis(e: redis::RedisError) -> (r: StorageErr)
        ensures
            r.transient == redis_transient(&e),
            r.source == Some(e),
    {
        let transient = redis_is_timeout(&e) || redis_is_connection_dropped(&e)
            || redis_is_cluster_error(&e) || redis_is_connection_refusal(&e);
        let msg = redis_err_to_string(&e);
        StorageErr { msg, source: Some(e), transient }
    }
}

} // verus!
