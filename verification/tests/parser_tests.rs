use syslog_sink::parser::parse;

fn expect_fields(line: &str, ts: &str, host: &str, level: &str, msg: &str) {
    match parse(line) {
        Ok(rec) => {
            assert_eq!(rec.timestamp, ts);
            assert_eq!(rec.hostname, host);
            assert_eq!(rec.log_level, level);
            assert_eq!(rec.message, msg);
        }
        Err(f) => panic!("line should parse, got failure on: {}", f.raw),
    }
}

fn expect_reject(line: &str) {
    match parse(line) {
        Ok(_) => panic!("line should be rejected: {}", line),
        Err(f) => assert_eq!(f.raw, line),
    }
}

#[test]
fn well_formed_line_yields_record() {
    expect_fields(
        "<34>1 2024-03-05T10:00:00Z host-a sshd - id123 - login failed",
        "2024-03-05T10:00:00Z",
        "host-a",
        "sshd",
        "login failed",
    );
}

#[test]
fn non_syslog_line_yields_failure() {
    expect_reject("not a syslog line");
}

#[test]
fn empty_line_yields_failure() {
    expect_reject("");
}

#[test]
fn timestamp_kept_verbatim() {
    let rec = parse("<0>0 1999-12-31T23:59:59Z h lvl - c - m").unwrap();
    assert_eq!(rec.timestamp, "1999-12-31T23:59:59Z");
}

#[test]
fn message_may_contain_delimiters() {
    expect_fields(
        "<34>1 2024-03-05T10:00:00Z host-a sshd - id123 - a - b - c",
        "2024-03-05T10:00:00Z",
        "host-a",
        "sshd",
        "a - b - c",
    );
}

#[test]
fn message_may_be_empty() {
    expect_fields(
        "<34>1 2024-03-05T10:00:00Z host-a sshd - id123 - ",
        "2024-03-05T10:00:00Z",
        "host-a",
        "sshd",
        "",
    );
}

#[test]
fn message_may_hold_extra_spaces() {
    expect_fields(
        "<1>2 2024-03-05T10:00:00Z h app - x -   padded  msg ",
        "2024-03-05T10:00:00Z",
        "h",
        "app",
        "  padded  msg ",
    );
}

#[test]
fn missing_message_section_rejected() {
    expect_reject("<34>1 2024-03-05T10:00:00Z host-a sshd - id123");
    expect_reject("<34>1 2024-03-05T10:00:00Z host-a sshd - id123 -");
    expect_reject("<34>1 2024-03-05T10:00:00Z host-a sshd - id123 x msg");
}

#[test]
fn missing_first_separator_rejected() {
    expect_reject("<34>1 2024-03-05T10:00:00Z host-a sshd id123 - msg");
    expect_reject("<34>1 2024-03-05T10:00:00Z host-a sshd -- id123 - msg");
}

#[test]
fn missing_tokens_rejected() {
    expect_reject("<34>1 2024-03-05T10:00:00Z host-a - id123 - msg");
    expect_reject("<34>1 2024-03-05T10:00:00Z - - id123 - msg");
    expect_reject("<34>1");
    expect_reject("<34>1 2024-03-05T10:00:00Z");
}

#[test]
fn malformed_priority_rejected() {
    expect_reject("34>1 2024-03-05T10:00:00Z host-a sshd - id123 - msg");
    expect_reject("<>1 2024-03-05T10:00:00Z host-a sshd - id123 - msg");
    expect_reject("<34> 2024-03-05T10:00:00Z host-a sshd - id123 - msg");
    expect_reject("<34 2024-03-05T10:00:00Z host-a sshd - id123 - msg");
    expect_reject("<3a>1 2024-03-05T10:00:00Z host-a sshd - id123 - msg");
    expect_reject("<34>x 2024-03-05T10:00:00Z host-a sshd - id123 - msg");
}

#[test]
fn malformed_timestamp_rejected() {
    expect_reject("<34>1 2024-3-05T10:00:00Z host-a sshd - id123 - msg");
    expect_reject("<34>1 2024-03-05 host-a sshd - id123 - msg");
    expect_reject("<34>1 2024-03-05T10:00:00 host-a sshd - id123 - msg");
    expect_reject("<34>1 2024-03-05x10:00:00Z host-a sshd - id123 - msg");
    expect_reject("<34>1 2024-03-05T10:00:0xZ host-a sshd - id123 - msg");
}

#[test]
fn doubled_spaces_rejected() {
    expect_reject("<34>1  2024-03-05T10:00:00Z host-a sshd - id123 - msg");
    expect_reject("<34>1 2024-03-05T10:00:00Z host-a  sshd - id123 - msg");
    expect_reject("<34>1 2024-03-05T10:00:00Z host-a sshd -  id123 - msg");
}

#[test]
fn wide_priority_and_version_accepted() {
    expect_fields(
        "<191>12 2024-03-05T10:00:00Z host-b kernel - boot7 - up",
        "2024-03-05T10:00:00Z",
        "host-b",
        "kernel",
        "up",
    );
}
