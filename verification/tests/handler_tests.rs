use syslog_sink::handler::{next_action, ConnAction, ReadEvent};

#[test]
fn wellformed_chunk_becomes_write() {
    let bytes = b"<34>1 2024-03-05T10:00:00Z host-a sshd - id123 - login failed".to_vec();
    match next_action(ReadEvent::Data(bytes)) {
        ConnAction::WriteRecord(rec) => {
            assert_eq!(rec.timestamp, "2024-03-05T10:00:00Z");
            assert_eq!(rec.hostname, "host-a");
            assert_eq!(rec.log_level, "sshd");
            assert_eq!(rec.message, "login failed");
        }
        _ => panic!("well-formed chunk should yield a record to write"),
    }
}

#[test]
fn malformed_chunk_is_skipped_not_fatal() {
    let bytes = b"not a syslog line".to_vec();
    match next_action(ReadEvent::Data(bytes)) {
        ConnAction::Skip(f) => assert_eq!(f.raw, "not a syslog line"),
        _ => panic!("malformed chunk should be skipped, never stop the handler"),
    }
}

#[test]
fn invalid_bytes_are_replaced_then_rejected() {
    let bytes = vec![0xff, 0xfe, b'x'];
    match next_action(ReadEvent::Data(bytes)) {
        ConnAction::Skip(f) => {
            // each invalid sequence was replaced by the sentinel, so the
            // failure still carries loggable text
            assert_eq!(f.raw, "\u{fffd}\u{fffd}x");
        }
        _ => panic!("undecodable chunk should be skipped, never stop the handler"),
    }
}

#[test]
fn orderly_close_stops_handler() {
    assert!(matches!(next_action(ReadEvent::Closed), ConnAction::Stop));
}

#[test]
fn read_error_stops_handler() {
    assert!(matches!(next_action(ReadEvent::Failed), ConnAction::Stop));
}
