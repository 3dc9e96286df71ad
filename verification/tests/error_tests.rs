use limitador::errors::StorageErr;
use redis::{ErrorKind, RedisError, ServerErrorKind};

#[test]
fn io_failures_are_transient() {
    let timeout: RedisError =
        std::io::Error::new(std::io::ErrorKind::TimedOut, "timed out").into();
    assert!(StorageErr::from_redis(timeout).is_transient());

    let refused: RedisError =
        std::io::Error::new(std::io::ErrorKind::ConnectionRefused, "refused").into();
    assert!(StorageErr::from_redis(refused).is_transient());

    let dropped: RedisError = RedisError::from((ErrorKind::Io, "connection lost"));
    assert!(StorageErr::from_redis(dropped).is_transient());
}

#[test]
fn cluster_errors_are_transient() {
    let e = RedisError::from((ErrorKind::Server(ServerErrorKind::ClusterDown), "cluster down"));
    assert!(StorageErr::from_redis(e).is_transient());
}

#[test]
fn protocol_errors_are_not_transient() {
    let e = RedisError::from((ErrorKind::UnexpectedReturnType, "wrong type"));
    assert!(!StorageErr::from_redis(e).is_transient());
    let e = RedisError::from((ErrorKind::Parse, "bad frame"));
    assert!(!StorageErr::from_redis(e).is_transient());
}

#[test]
fn message_and_cause_carry_the_failure() {
    let e = RedisError::from((ErrorKind::UnexpectedReturnType, "wrong type"));
    let expected = e.to_string();
    let err = StorageErr::from_redis(e);
    assert_eq!(err.msg, expected);
    assert!(err.msg.contains("wrong type"));
    // The failure itself travels along as the underlying cause.
    assert_eq!(err.source.unwrap().to_string(), expected);
}
