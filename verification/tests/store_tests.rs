use syslog_sink::parser::parse;
use syslog_sink::query::Query;
use syslog_sink::store::Store;

const LINE_A: &str = "<34>1 2024-03-05T10:00:00Z host-a sshd - id1 - login failed";
const LINE_B: &str = "<13>1 2024-03-05T10:00:01Z host-b nginx - id2 - GET /index";
const LINE_C: &str = "<34>1 2024-03-05T10:00:02Z host-a cron - id3 - job done - ok";

fn filled_store() -> Store {
    let mut store = Store::new();
    assert!(store.process_log(LINE_A).is_ok());
    assert!(store.process_log(LINE_B).is_ok());
    assert!(store.process_log(LINE_C).is_ok());
    store
}

#[test]
fn round_trip_returns_every_record() {
    let store = filled_store();
    assert_eq!(store.len(), 3);
    let all = store.search_logs(&Query::match_all());
    assert_eq!(all.len(), 3);
    assert_eq!(all[0].hostname, "host-a");
    assert_eq!(all[0].log_level, "sshd");
    assert_eq!(all[0].message, "login failed");
    assert_eq!(all[1].hostname, "host-b");
    assert_eq!(all[1].timestamp, "2024-03-05T10:00:01Z");
    assert_eq!(all[2].message, "job done - ok");
}

#[test]
fn same_malformed_line_twice_stores_nothing() {
    let mut store = Store::new();
    let first = store.process_log("not a syslog line");
    let second = store.process_log("not a syslog line");
    match (first, second) {
        (Err(f1), Err(f2)) => {
            assert_eq!(f1.raw, "not a syslog line");
            assert_eq!(f2.raw, "not a syslog line");
        }
        _ => panic!("both feedings should fail"),
    }
    assert_eq!(store.len(), 0);
    assert_eq!(store.search_logs(&Query::match_all()).len(), 0);
}

#[test]
fn malformed_then_wellformed_stores_one() {
    let mut store = Store::new();
    assert!(store.process_log("garbage in").is_err());
    assert!(store.process_log(LINE_A).is_ok());
    assert_eq!(store.len(), 1);
    let all = store.search_logs(&Query::match_all());
    assert_eq!(all.len(), 1);
    assert_eq!(all[0].message, "login failed");
}

#[test]
fn batch_is_stored_in_send_order() {
    let mut store = Store::new();
    let lines: Vec<String> = vec![
        LINE_A.to_string(),
        LINE_B.to_string(),
        LINE_C.to_string(),
    ];
    let stored = store.process_lines(&lines);
    assert_eq!(stored, 3);
    let all = store.search_logs(&Query::match_all());
    assert_eq!(all[0].message, "login failed");
    assert_eq!(all[1].message, "GET /index");
    assert_eq!(all[2].message, "job done - ok");
}

#[test]
fn batch_skips_malformed_and_continues() {
    let mut store = Store::new();
    let lines: Vec<String> = vec![
        LINE_A.to_string(),
        "nonsense".to_string(),
        LINE_B.to_string(),
        "".to_string(),
        LINE_C.to_string(),
    ];
    let stored = store.process_lines(&lines);
    assert_eq!(stored, 3);
    assert_eq!(store.len(), 3);
}

#[test]
fn interleaved_connections_keep_each_order() {
    // two senders' batches interleaved, as concurrent handlers interleave
    // their writes: every message lands, and each sender's records appear in
    // that sender's order.
    let a1 = "<34>1 2024-03-05T10:00:00Z host-a app - i1 - a first";
    let a2 = "<34>1 2024-03-05T10:00:02Z host-a app - i2 - a second";
    let b1 = "<34>1 2024-03-05T10:00:01Z host-b app - i3 - b first";
    let b2 = "<34>1 2024-03-05T10:00:03Z host-b app - i4 - b second";
    let mut store = Store::new();
    for line in [a1, b1, a2, b2] {
        assert!(store.process_log(line).is_ok());
    }
    assert_eq!(store.len(), 4);
    let from_a = store.search_logs(&Query {
        hostname: Some("host-a".to_string()),
        log_level: None,
        message: None,
    });
    assert_eq!(from_a.len(), 2);
    assert_eq!(from_a[0].message, "a first");
    assert_eq!(from_a[1].message, "a second");
    let from_b = store.search_logs(&Query {
        hostname: Some("host-b".to_string()),
        log_level: None,
        message: None,
    });
    assert_eq!(from_b.len(), 2);
    assert_eq!(from_b[0].message, "b first");
    assert_eq!(from_b[1].message, "b second");
}

#[test]
fn hostname_filter_is_equality() {
    let store = filled_store();
    let out = store.search_logs(&Query {
        hostname: Some("host-a".to_string()),
        log_level: None,
        message: None,
    });
    assert_eq!(out.len(), 2);
    assert_eq!(out[0].log_level, "sshd");
    assert_eq!(out[1].log_level, "cron");
    let none = store.search_logs(&Query {
        hostname: Some("host".to_string()),
        log_level: None,
        message: None,
    });
    assert_eq!(none.len(), 0);
}

#[test]
fn log_level_filter_is_equality() {
    let store = filled_store();
    let out = store.search_logs(&Query {
        hostname: None,
        log_level: Some("nginx".to_string()),
        message: None,
    });
    assert_eq!(out.len(), 1);
    assert_eq!(out[0].hostname, "host-b");
}

#[test]
fn message_filter_is_substring() {
    let store = filled_store();
    let out = store.search_logs(&Query {
        hostname: None,
        log_level: None,
        message: Some("dex".to_string()),
    });
    assert_eq!(out.len(), 1);
    assert_eq!(out[0].message, "GET /index");
    let dashes = store.search_logs(&Query {
        hostname: None,
        log_level: None,
        message: Some("done - ok".to_string()),
    });
    assert_eq!(dashes.len(), 1);
    assert_eq!(dashes[0].message, "job done - ok");
    let empty_needle = store.search_logs(&Query {
        hostname: None,
        log_level: None,
        message: Some(String::new()),
    });
    assert_eq!(empty_needle.len(), 3);
    let missing = store.search_logs(&Query {
        hostname: None,
        log_level: None,
        message: Some("absent".to_string()),
    });
    assert_eq!(missing.len(), 0);
}

#[test]
fn combined_filters_intersect() {
    let store = filled_store();
    let out = store.search_logs(&Query {
        hostname: Some("host-a".to_string()),
        log_level: Some("cron".to_string()),
        message: Some("job".to_string()),
    });
    assert_eq!(out.len(), 1);
    assert_eq!(out[0].message, "job done - ok");
    let clash = store.search_logs(&Query {
        hostname: Some("host-a".to_string()),
        log_level: Some("nginx".to_string()),
        message: None,
    });
    assert_eq!(clash.len(), 0);
}

#[test]
fn write_appends_record_directly() {
    let mut store = Store::new();
    let rec = parse(LINE_A).unwrap();
    store.write(rec);
    assert_eq!(store.len(), 1);
    let all = store.search_logs(&Query::match_all());
    assert_eq!(all[0].timestamp, "2024-03-05T10:00:00Z");
}
