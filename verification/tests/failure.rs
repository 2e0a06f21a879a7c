use redis::{ErrorKind, RedisError};
use rsloglib::failure::{error_handler, Disposition, Recovery, FATAL_STATUS};
use rsloglib::{ConnectionFailure, SlowlogReader};

const ALL: [ConnectionFailure; 5] = [
    ConnectionFailure::Transient,
    ConnectionFailure::AuthFailed,
    ConnectionFailure::UnsupportedOperation,
    ConnectionFailure::ProtocolParse,
    ConnectionFailure::Other,
];

#[test]
fn fatal_status_is_one() {
    assert_eq!(FATAL_STATUS, 1);
}

#[test]
fn transient_failure_asks_for_a_new_connection() {
    let reader = SlowlogReader::new();
    assert_eq!(reader.redis_error_handler(ConnectionFailure::Transient), Recovery::Reconnect);
}

#[test]
fn other_failures_are_handed_up() {
    let reader = SlowlogReader::new();
    for failure in ALL {
        if failure != ConnectionFailure::Transient {
            assert_eq!(reader.redis_error_handler(failure), Recovery::Surface(failure));
        }
    }
}

#[test]
fn handler_leaves_the_reader_alone() {
    let reader = SlowlogReader::new();
    for failure in ALL {
        reader.redis_error_handler(failure);
    }
    assert_eq!(reader.watermark(), -1);
    assert_eq!(reader.uptime(), 0);
    assert_eq!(reader.length(), 128);
}

#[test]
fn disposition_of_each_failure() {
    assert_eq!(ConnectionFailure::Transient.disposition(), Disposition::Continue);
    assert_eq!(ConnectionFailure::AuthFailed.disposition(), Disposition::Exit(1));
    assert_eq!(ConnectionFailure::UnsupportedOperation.disposition(), Disposition::Exit(1));
    assert_eq!(ConnectionFailure::ProtocolParse.disposition(), Disposition::Defect);
    assert_eq!(ConnectionFailure::Other.disposition(), Disposition::Defect);
}

#[test]
fn transient_failure_never_ends_the_process() {
    assert!(!matches!(ConnectionFailure::Transient.disposition(), Disposition::Exit(_)));
    assert!(!matches!(ConnectionFailure::Transient.disposition(), Disposition::Defect));
}

#[test]
fn error_handler_goes_by_the_kind() {
    let cases = [
        (ErrorKind::IoError, Disposition::Continue),
        (ErrorKind::AuthenticationFailed, Disposition::Exit(1)),
        (ErrorKind::ExtensionError, Disposition::Exit(1)),
        (ErrorKind::TypeError, Disposition::Defect),
        (ErrorKind::ResponseError, Disposition::Defect),
        (ErrorKind::InvalidClientConfig, Disposition::Defect),
        (ErrorKind::ClientError, Disposition::Defect),
    ];
    for (kind, disposition) in cases {
        let e = RedisError::from((kind, "failed"));
        assert_eq!(error_handler(&e), disposition);
    }
}

#[test]
fn error_handler_reads_errors_with_detail() {
    let e = RedisError::from((ErrorKind::IoError, "lost", String::from("connection reset")));
    assert_eq!(error_handler(&e), Disposition::Continue);
    let refused = std::io::Error::new(std::io::ErrorKind::ConnectionRefused, "refused");
    assert_eq!(error_handler(&RedisError::from(refused)), Disposition::Continue);
}
