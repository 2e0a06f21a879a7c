use redis::{ErrorKind, RedisError};
use rsloglib::reader::{DEFAULT_LENGTH, SENTINEL};
use rsloglib::uptime::UptimeError;
use rsloglib::{ConnectionFailure, Poll, SlowlogReader, SlowlogRecord};

fn record(id: i64) -> SlowlogRecord {
    SlowlogRecord {
        id,
        time: 1_600_000_000 + id,
        duration: 10_500,
        client_socket: String::from("127.0.0.1:50000"),
        client_name: String::from("worker"),
        command: vec![String::from("KEYS"), String::from("*")],
    }
}

fn listing(ids: &[i64]) -> Vec<SlowlogRecord> {
    ids.iter().map(|id| record(*id)).collect()
}

fn ids(records: &[SlowlogRecord]) -> Vec<i64> {
    records.iter().map(|r| r.id).collect()
}

fn fetched(uptime: u64, ids: &[i64]) -> Poll {
    Poll::Fetched { uptime, records: listing(ids) }
}

#[test]
fn new_reader_has_reported_nothing() {
    let reader = SlowlogReader::new();
    assert_eq!(SENTINEL, -1);
    assert_eq!(DEFAULT_LENGTH, 128);
    assert_eq!(reader.watermark(), -1);
    assert_eq!(reader.uptime(), 0);
    assert_eq!(reader.length(), 128);
}

#[test]
fn three_polls_with_a_restart() {
    let mut reader = SlowlogReader::new();
    assert_eq!(reader.watermark(), -1);
    assert_eq!(reader.uptime(), 0);

    let first = reader.get(fetched(100, &[5, 4, 3])).unwrap();
    assert_eq!(first, listing(&[5, 4, 3]));
    assert_eq!(reader.watermark(), 5);
    assert_eq!(reader.uptime(), 100);

    let second = reader.get(fetched(105, &[5, 4, 3])).unwrap();
    assert_eq!(second, Vec::<SlowlogRecord>::new());
    assert_eq!(reader.watermark(), 5);
    assert_eq!(reader.uptime(), 105);

    let third = reader.get(fetched(2, &[1, 0])).unwrap();
    assert_eq!(third, listing(&[1, 0]));
    assert_eq!(reader.watermark(), 1);
    assert_eq!(reader.uptime(), 2);
}

#[test]
fn second_poll_reports_only_what_is_new() {
    let mut reader = SlowlogReader::new();
    let first = reader.get(fetched(10, &[7, 6, 2])).unwrap();
    assert_eq!(ids(&first), vec![7, 6, 2]);
    assert_eq!(reader.watermark(), 7);

    let second = reader.get(fetched(20, &[9, 8, 7, 6, 2])).unwrap();
    assert_eq!(ids(&second), vec![9, 8]);
    assert_eq!(reader.watermark(), 9);
    assert_eq!(reader.uptime(), 20);
}

#[test]
fn same_uptime_is_no_restart() {
    let mut reader = SlowlogReader::new();
    reader.get(fetched(10, &[3, 2])).unwrap();
    let again = reader.get(fetched(10, &[4, 3, 2])).unwrap();
    assert_eq!(ids(&again), vec![4]);
    assert_eq!(reader.watermark(), 4);
}

#[test]
fn unchanged_log_reports_nothing() {
    let mut reader = SlowlogReader::new();
    reader.get(fetched(50, &[12, 11, 10])).unwrap();
    for uptime in [50, 51, 60] {
        let again = reader.get(fetched(uptime, &[12, 11, 10])).unwrap();
        assert!(again.is_empty());
        assert_eq!(reader.watermark(), 12);
        assert_eq!(reader.uptime(), uptime);
    }
}

#[test]
fn empty_log_leaves_the_watermark() {
    let mut reader = SlowlogReader::new();
    let nothing = reader.get(fetched(5, &[])).unwrap();
    assert!(nothing.is_empty());
    assert_eq!(reader.watermark(), -1);
    assert_eq!(reader.uptime(), 5);

    reader.get(fetched(6, &[3])).unwrap();
    let nothing = reader.get(fetched(7, &[])).unwrap();
    assert!(nothing.is_empty());
    assert_eq!(reader.watermark(), 3);
    assert_eq!(reader.uptime(), 7);
}

#[test]
fn restart_reports_entries_below_the_old_watermark() {
    let mut reader = SlowlogReader::new();
    reader.get(fetched(1000, &[500, 499])).unwrap();
    assert_eq!(reader.watermark(), 500);

    let after = reader.get(fetched(999, &[2, 1, 0])).unwrap();
    assert_eq!(ids(&after), vec![2, 1, 0]);
    assert_eq!(reader.watermark(), 2);
    assert_eq!(reader.uptime(), 999);
}

#[test]
fn restart_with_an_empty_log_forgets_the_watermark() {
    let mut reader = SlowlogReader::new();
    reader.get(fetched(1000, &[500])).unwrap();
    let after = reader.get(fetched(3, &[])).unwrap();
    assert!(after.is_empty());
    assert_eq!(reader.watermark(), -1);
    assert_eq!(reader.uptime(), 3);
}

#[test]
fn log_cleared_without_restart_hides_new_entries() {
    let mut reader = SlowlogReader::new();
    reader.get(fetched(100, &[40, 39])).unwrap();
    let after_clear = reader.get(fetched(110, &[1, 0])).unwrap();
    assert!(after_clear.is_empty());
    assert_eq!(reader.watermark(), 40);
}

#[test]
fn entries_beyond_the_fetch_window_are_lost() {
    let mut reader = SlowlogReader::new();
    reader.get(fetched(10, &[1, 0])).unwrap();
    // The server holds 2..=9 by now and was asked for three entries.
    let window = reader.get(fetched(20, &[9, 8, 7])).unwrap();
    assert_eq!(ids(&window), vec![9, 8, 7]);
    assert_eq!(reader.watermark(), 9);
    let later = reader.get(fetched(30, &[9, 8, 7, 6, 5])).unwrap();
    assert!(later.is_empty());
}

#[test]
fn report_keeps_the_order_of_the_listing() {
    let mut reader = SlowlogReader::new();
    reader.get(fetched(1, &[4])).unwrap();
    let mixed = reader.get(fetched(2, &[6, 3, 9, 4, 5])).unwrap();
    assert_eq!(ids(&mixed), vec![6, 9, 5]);
    assert_eq!(reader.watermark(), 6);
}

#[test]
fn report_hands_the_records_over_whole() {
    let mut reader = SlowlogReader::new();
    let entry = SlowlogRecord {
        id: 17,
        time: 1_700_000_123,
        duration: 2_000_001,
        client_socket: String::from("10.0.0.7:6379"),
        client_name: String::new(),
        command: vec![String::from("SORT"), String::from("big"), String::from("ALPHA")],
    };
    let out = reader.get(Poll::Fetched { uptime: 1, records: vec![entry.clone()] }).unwrap();
    assert_eq!(out, vec![entry]);
}

#[test]
fn identifiers_below_zero_are_never_reported() {
    let mut reader = SlowlogReader::new();
    let out = reader.get(fetched(1, &[0, -1, -7])).unwrap();
    assert_eq!(ids(&out), vec![0]);
    assert_eq!(reader.watermark(), 0);
}

#[test]
fn largest_identifier_and_uptime_are_taken() {
    let mut reader = SlowlogReader::new();
    let out = reader.get(fetched(u64::MAX, &[i64::MAX, i64::MAX - 1])).unwrap();
    assert_eq!(ids(&out), vec![i64::MAX, i64::MAX - 1]);
    assert_eq!(reader.watermark(), i64::MAX);
    assert_eq!(reader.uptime(), u64::MAX);
    let again = reader.get(fetched(u64::MAX, &[i64::MAX])).unwrap();
    assert!(again.is_empty());
}

#[test]
fn failed_query_leaves_the_reader_as_it_was() {
    let mut reader = SlowlogReader::new();
    reader.get(fetched(100, &[5, 4])).unwrap();

    let broken = Poll::Failed(RedisError::from((ErrorKind::IoError, "broken pipe")));
    assert_eq!(reader.get(broken), Err(ConnectionFailure::Transient));
    assert_eq!(reader.watermark(), 5);
    assert_eq!(reader.uptime(), 100);

    let refused = Poll::Failed(RedisError::from((ErrorKind::AuthenticationFailed, "no")));
    assert_eq!(reader.get(refused), Err(ConnectionFailure::AuthFailed));
    assert_eq!(reader.watermark(), 5);
    assert_eq!(reader.uptime(), 100);

    let next = reader.get(fetched(101, &[6, 5, 4])).unwrap();
    assert_eq!(ids(&next), vec![6]);
}

#[test]
fn failed_query_names_the_kind_of_failure() {
    let mut reader = SlowlogReader::new();
    let cases = [
        (ErrorKind::IoError, ConnectionFailure::Transient),
        (ErrorKind::AuthenticationFailed, ConnectionFailure::AuthFailed),
        (ErrorKind::ExtensionError, ConnectionFailure::UnsupportedOperation),
        (ErrorKind::TypeError, ConnectionFailure::ProtocolParse),
        (ErrorKind::ResponseError, ConnectionFailure::Other),
        (ErrorKind::BusyLoadingError, ConnectionFailure::Other),
        (ErrorKind::ReadOnly, ConnectionFailure::Other),
    ];
    for (kind, failure) in cases {
        let poll = Poll::Failed(RedisError::from((kind, "failed")));
        assert_eq!(reader.get(poll), Err(failure));
    }
    assert_eq!(reader.watermark(), -1);
    assert_eq!(reader.uptime(), 0);
}

#[test]
fn io_error_of_the_system_is_transient() {
    let mut reader = SlowlogReader::new();
    let reset = std::io::Error::new(std::io::ErrorKind::ConnectionReset, "reset by peer");
    assert_eq!(reader.get(Poll::Failed(RedisError::from(reset))), Err(ConnectionFailure::Transient));
}

#[test]
fn unreadable_uptime_leaves_the_reader_as_it_was() {
    let mut reader = SlowlogReader::new();
    reader.get(fetched(100, &[5])).unwrap();
    for error in [UptimeError::NoUptimeLine, UptimeError::NoValue, UptimeError::BadNumber] {
        assert_eq!(reader.get(Poll::Malformed(error)), Err(ConnectionFailure::ProtocolParse));
        assert_eq!(reader.watermark(), 5);
        assert_eq!(reader.uptime(), 100);
    }
}

#[test]
fn restart_seen_by_a_failed_poll_is_seen_again() {
    let mut reader = SlowlogReader::new();
    reader.get(fetched(100, &[50])).unwrap();
    let broken = Poll::Failed(RedisError::from((ErrorKind::IoError, "timed out")));
    assert!(reader.get(broken).is_err());
    let after = reader.get(fetched(4, &[1, 0])).unwrap();
    assert_eq!(ids(&after), vec![1, 0]);
    assert_eq!(reader.watermark(), 1);
}
