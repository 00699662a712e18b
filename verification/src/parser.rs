//! The syslog parser: one line of text either yields a `LogRecord` holding the
//! four captured fields, or a `ParseFailure` holding the raw line.
//!
//! The grammar is fixed and positional, anchored to the whole line:
//!
//! ```text
//! PRI SP TIMESTAMP SP HOSTNAME SP LOGLEVEL SP "-" SP CONTENT SP "-" SP MESSAGE
//! ```
//!
//! where `PRI` is `<digits>digits`, `TIMESTAMP` is an ISO-8601 UTC date-time
//! of the form `YYYY-MM-DDThh:mm:ssZ`, `HOSTNAME`, `LOGLEVEL` and `CONTENT`
//! are non-empty tokens without spaces, the two `-` separators are literal,
//! and `MESSAGE` is everything after the second separator's trailing space —
//! it may be empty and may contain any characters, including substrings that
//! look like further separators.

use vstd::prelude::*;

use crate::record::{LogRecord, ParseFailure, RecordModel};

verus! {

/// An ASCII decimal digit.
pub open spec fn is_digit(c: char) -> bool {
    48 <= c as u32 && c as u32 <= 57
}

/// A token: non-empty, and free of the space delimiter.
pub open spec fn is_token(t: Seq<char>) -> bool {
    t.len() > 0 && forall|i: int| 0 <= i < t.len() ==> t[i] != ' '
}

/// The index of the first space at or after `from`, or `s.len()` if none.
pub open spec fn token_end(s: Seq<char>, from: int) -> int
    decreases s.len() - from,
{
    if from >= s.len() || from < 0 {
        s.len() as int
    } else if s[from] == ' ' {
        from
    } else {
        token_end(s, from + 1)
    }
}

/// The index of the first non-digit at or after `from`, or `s.len()` if none.
pub open spec fn digit_end(s: Seq<char>, from: int) -> int
    decreases s.len() - from,
{
    if from >= s.len() || from < 0 {
        s.len() as int
    } else if !is_digit(s[from]) {
        from
    } else {
        digit_end(s, from + 1)
    }
}

/// The priority/version prefix: `<` one or more digits `>` one or more digits.
pub open spec fn is_pri(t: Seq<char>) -> bool {
    let close = digit_end(t, 1);
    &&& t.len() >= 1
    &&& t[0] == '<'
    &&& close > 1
    &&& close < t.len()
    &&& t[close] == '>'
    &&& t.len() > close + 1
    &&& digit_end(t, close + 1) == t.len()
}

/// An ISO-8601 UTC date-time of the fixed form `YYYY-MM-DDThh:mm:ssZ`.
pub open spec fn is_timestamp(t: Seq<char>) -> bool {
    &&& t.len() == 20
    &&& is_digit(t[0]) && is_digit(t[1]) && is_digit(t[2]) && is_digit(t[3])
    &&& t[4] == '-'
    &&& is_digit(t[5]) && is_digit(t[6])
    &&& t[7] == '-'
    &&& is_digit(t[8]) && is_digit(t[9])
    &&& t[10] == 'T'
    &&& is_digit(t[11]) && is_digit(t[12])
    &&& t[13] == ':'
    &&& is_digit(t[14]) && is_digit(t[15])
    &&& t[16] == ':'
    &&& is_digit(t[17]) && is_digit(t[18])
    &&& t[19] == 'Z'
}

/// What `parse` returns on a line `s`: the captured record if `s` matches the
/// grammar, `None` otherwise. Matching is anchored to the whole line; the
/// message capture is everything after the space that follows the second
/// literal separator.
pub open spec fn parse_result(s: Seq<char>) -> Option<RecordModel> {
    let e1 = token_end(s, 0);
    let p2 = e1 + 1;
    let e2 = token_end(s, p2);
    let p3 = e2 + 1;
    let e3 = token_end(s, p3);
    let p4 = e3 + 1;
    let e4 = token_end(s, p4);
    let p5 = e4 + 1;
    let e5 = token_end(s, p5);
    let p6 = e5 + 1;
    let e6 = token_end(s, p6);
    let p7 = e6 + 1;
    let e7 = token_end(s, p7);
    if {
        &&& 0 < e1 && e1 < s.len() && is_pri(s.subrange(0, e1))
        &&& e2 < s.len() && is_timestamp(s.subrange(p2, e2))
        &&& p3 < e3 && e3 < s.len()
        &&& p4 < e4 && e4 < s.len()
        &&& e5 == p5 + 1 && s[p5] == '-' && e5 < s.len()
        &&& p6 < e6 && e6 < s.len()
        &&& e7 == p7 + 1 && s[p7] == '-' && e7 < s.len()
    } {
        Some(
            RecordModel {
                timestamp: s.subrange(p2, e2),
                hostname: s.subrange(p3, e3),
                log_level: s.subrange(p4, e4),
                message: s.subrange(e7 + 1, s.len() as int),
            },
        )
    } else {
        None
    }
}

/// If every character in `[from, j)` is a non-space and `j` is a space (or the
/// end), the first space search from `from` stops exactly at `j`.
proof fn lemma_token_end_at(s: Seq<char>, from: int, j: int)
    requires
        0 <= from <= j <= s.len(),
        forall|k: int| from <= k < j ==> s[k] != ' ',
        j < s.len() ==> s[j] == ' ',
    ensures
        token_end(s, from) == j,
    decreases j - from,
{
    if from < j {
        lemma_token_end_at(s, from + 1, j);
    }
}

/// Basic bounds and character facts about `token_end`.
pub proof fn lemma_token_end_props(s: Seq<char>, from: int)
    requires
        0 <= from <= s.len(),
    ensures
        from <= token_end(s, from) <= s.len(),
        forall|k: int| from <= k < token_end(s, from) ==> s[k] != ' ',
        token_end(s, from) < s.len() ==> s[token_end(s, from)] == ' ',
    decreases s.len() - from,
{
    if from < s.len() && s[from] != ' ' {
        lemma_token_end_props(s, from + 1);
    }
}

/// The digit analogue of `lemma_token_end_at`.
proof fn lemma_digit_end_at(s: Seq<char>, from: int, j: int)
    requires
        0 <= from <= j <= s.len(),
        forall|k: int| from <= k < j ==> is_digit(s[k]),
        j < s.len() ==> !is_digit(s[j]),
    ensures
        digit_end(s, from) == j,
    decreases j - from,
{
    if from < j {
        lemma_digit_end_at(s, from + 1, j);
    }
}

/// Basic bounds and character facts about `digit_end`.
pub proof fn lemma_digit_end_props(s: Seq<char>, from: int)
    requires
        0 <= from <= s.len(),
    ensures
        from <= digit_end(s, from) <= s.len(),
        forall|k: int| from <= k < digit_end(s, from) ==> is_digit(s[k]),
        digit_end(s, from) < s.len() ==> !is_digit(s[digit_end(s, from)]),
    decreases s.len() - from,
{
    if from < s.len() && is_digit(s[from]) {
        lemma_digit_end_props(s, from + 1);
    }
}

/// A well-formed priority prefix is a token: non-empty and free of spaces.
pub proof fn lemma_pri_is_token(t: Seq<char>)
    requires
        is_pri(t),
    ensures
        is_token(t),
{
    let close = digit_end(t, 1);
    lemma_digit_end_props(t, 1);
    lemma_digit_end_props(t, close + 1);
    assert(forall|i: int| 0 <= i < t.len() ==> t[i] != ' ');
}

/// A well-formed timestamp is a token: non-empty and free of spaces.
pub proof fn lemma_timestamp_is_token(t: Seq<char>)
    requires
        is_timestamp(t),
    ensures
        is_token(t),
{
    assert forall|i: int| 0 <= i < t.len() implies t[i] != ' ' by {
        if i == 4 || i == 7 {
        } else if i == 10 || i == 13 || i == 16 || i == 19 {
        } else {
            assert(is_digit(t[i]));
        }
    }
}

/// The line that a decomposition into the grammar's nine pieces denotes:
/// four tokens, then `-`, a token, `-` again, and the free-form message,
/// all joined by single spaces.
pub open spec fn glue(
    pri: Seq<char>,
    ts: Seq<char>,
    host: Seq<char>,
    level: Seq<char>,
    content: Seq<char>,
    msg: Seq<char>,
) -> Seq<char> {
    pri + seq![' '] + ts + seq![' '] + host + seq![' '] + level + seq![' ', '-', ' '] + content
        + seq![' ', '-', ' '] + msg
}

/// `s` decomposes into the grammar: a priority prefix, a timestamp, a
/// hostname token, a log-level token, a content token and a trailing message,
/// in order, with the two literal separators in place. The message is
/// unconstrained: it may be empty and may contain spaces and dashes.
pub open spec fn is_decomposition(
    s: Seq<char>,
    pri: Seq<char>,
    ts: Seq<char>,
    host: Seq<char>,
    level: Seq<char>,
    content: Seq<char>,
    msg: Seq<char>,
) -> bool {
    &&& is_pri(pri)
    &&& is_timestamp(ts)
    &&& is_token(host)
    &&& is_token(level)
    &&& is_token(content)
    &&& s == glue(pri, ts, host, level, content, msg)
}

/// Every line that matches the grammar parses to exactly its four captured
/// pieces: the timestamp, the hostname, the token after the hostname as the
/// log level, and everything after the last designated separator as the
/// message — even when the message itself holds delimiter-like substrings.
pub proof fn lemma_parse_captures_decomposition(
    s: Seq<char>,
    pri: Seq<char>,
    ts: Seq<char>,
    host: Seq<char>,
    level: Seq<char>,
    content: Seq<char>,
    msg: Seq<char>,
)
    requires
        is_decomposition(s, pri, ts, host, level, content, msg),
    ensures
        parse_result(s) == Some(
            RecordModel { timestamp: ts, hostname: host, log_level: level, message: msg },
        ),
{
    lemma_pri_is_token(pri);
    lemma_timestamp_is_token(ts);
    let n1 = pri.len() as int;
    let o2 = n1 + 1;
    let e2 = o2 + ts.len();
    let o3 = e2 + 1;
    let e3 = o3 + host.len();
    let o4 = e3 + 1;
    let e4 = o4 + level.len();
    let o5 = e4 + 1;
    let o6 = e4 + 3;
    let e6 = o6 + content.len();
    let o7 = e6 + 1;
    let o8 = e6 + 3;
    assert(s.len() == o8 + msg.len());
    assert(forall|k: int| 0 <= k < n1 ==> s[k] == pri[k]);
    assert(s[n1] == ' ');
    assert(forall|k: int| o2 <= k < e2 ==> s[k] == ts[k - o2]);
    assert(s[e2] == ' ');
    assert(forall|k: int| o3 <= k < e3 ==> s[k] == host[k - o3]);
    assert(s[e3] == ' ');
    assert(forall|k: int| o4 <= k < e4 ==> s[k] == level[k - o4]);
    assert(s[e4] == ' ');
    assert(s[o5] == '-');
    assert(s[o5 + 1] == ' ');
    assert(forall|k: int| o6 <= k < e6 ==> s[k] == content[k - o6]);
    assert(s[e6] == ' ');
    assert(s[o7] == '-');
    assert(s[o7 + 1] == ' ');
    assert(forall|k: int| o8 <= k < s.len() ==> s[k] == msg[k - o8]);
    lemma_token_end_at(s, 0, n1);
    lemma_token_end_at(s, o2, e2);
    lemma_token_end_at(s, o3, e3);
    lemma_token_end_at(s, o4, e4);
    lemma_token_end_at(s, o5, o5 + 1);
    lemma_token_end_at(s, o6, e6);
    lemma_token_end_at(s, o7, o7 + 1);
    assert(s.subrange(0, n1) =~= pri);
    assert(s.subrange(o2, e2) =~= ts);
    assert(s.subrange(o3, e3) =~= host);
    assert(s.subrange(o4, e4) =~= level);
    assert(s.subrange(o8, s.len() as int) =~= msg);
}

/// Every line that parses has a decomposition into the grammar whose captured
/// pieces are exactly the returned fields.
pub proof fn lemma_parse_implies_decomposition(s: Seq<char>)
    requires
        parse_result(s) is Some,
    ensures
        ({
            let r = parse_result(s)->0;
            exists|pri: Seq<char>, content: Seq<char>|
                is_decomposition(s, pri, r.timestamp, r.hostname, r.log_level, content, r.message)
        }),
{
    let e1 = token_end(s, 0);
    let p2 = e1 + 1;
    let e2 = token_end(s, p2);
    let p3 = e2 + 1;
    let e3 = token_end(s, p3);
    let p4 = e3 + 1;
    let e4 = token_end(s, p4);
    let p5 = e4 + 1;
    let e5 = token_end(s, p5);
    let p6 = e5 + 1;
    let e6 = token_end(s, p6);
    let p7 = e6 + 1;
    let e7 = token_end(s, p7);
    lemma_token_end_props(s, 0);
    lemma_token_end_props(s, p2);
    lemma_token_end_props(s, p3);
    lemma_token_end_props(s, p4);
    lemma_token_end_props(s, p5);
    lemma_token_end_props(s, p6);
    lemma_token_end_props(s, p7);
    let pri = s.subrange(0, e1);
    let ts = s.subrange(p2, e2);
    let host = s.subrange(p3, e3);
    let level = s.subrange(p4, e4);
    let content = s.subrange(p6, e6);
    let msg = s.subrange(e7 + 1, s.len() as int);
    let g = glue(pri, ts, host, level, content, msg);
    assert(g.len() == s.len());
    assert(forall|k: int| 0 <= k < e1 ==> g[k] == pri[k]);
    assert(g[e1] == ' ');
    assert(forall|k: int| p2 <= k < e2 ==> g[k] == ts[k - p2]);
    assert(g[e2] == ' ');
    assert(forall|k: int| p3 <= k < e3 ==> g[k] == host[k - p3]);
    assert(g[e3] == ' ');
    assert(forall|k: int| p4 <= k < e4 ==> g[k] == level[k - p4]);
    assert(g[e4] == ' ');
    assert(g[p5] == '-');
    assert(g[e5] == ' ');
    assert(forall|k: int| p6 <= k < e6 ==> g[k] == content[k - p6]);
    assert(g[e6] == ' ');
    assert(g[p7] == '-');
    assert(g[e7] == ' ');
    assert(forall|k: int| e7 + 1 <= k < s.len() ==> g[k] == msg[k - (e7 + 1)]);
    assert(s =~= g);
    assert(is_token(host));
    assert(is_token(level));
    assert(is_token(content));
    assert(is_decomposition(s, pri, ts, host, level, content, msg));
    let r = parse_result(s)->0;
    assert(r.timestamp == ts && r.hostname == host && r.log_level == level && r.message == msg);
    assert(is_decomposition(s, pri, r.timestamp, r.hostname, r.log_level, content, r.message));
}

/// A line with no decomposition into the grammar — one missing any required
/// token or separator — is rejected; no partially-populated record exists.
pub proof fn lemma_unmatched_rejected(s: Seq<char>)
    requires
        forall|pri: Seq<char>, ts: Seq<char>, host: Seq<char>, level: Seq<char>, content: Seq<
            char,
        >, msg: Seq<char>|
            !is_decomposition(s, pri, ts, host, level, content, msg),
    ensures
        parse_result(s) is None,
{
    if parse_result(s) is Some {
        lemma_parse_implies_decomposition(s);
        assert(false);
    }
}

/// Whether `c` is an ASCII decimal digit.
fn digit_char(c: char) -> (b: bool)
    ensures
        b == is_digit(c),
{
    let u = c as u32;
    48 <= u && u <= 57
}

/// The index of the first space in `s` at or after `from`, or `n` if none.
fn find_token_end(s: &str, from: usize, n: usize) -> (e: usize)
    requires
        n == s@.len(),
        from <= n,
    ensures
        from <= e <= n,
        e as int == token_end(s@, from as int),
{
    let mut i: usize = from;
    while i < n
        invariant
            from <= i <= n,
            n == s@.len(),
            forall|k: int| from <= k < i ==> s@[k] != ' ',
        decreases n - i,
    {
        if s.get_char(i) == ' ' {
            proof {
                lemma_token_end_at(s@, from as int, i as int);
            }
            return i;
        }
        i = i + 1;
    }
    proof {
        lemma_token_end_at(s@, from as int, n as int);
    }
    n
}

/// The index of the first non-digit in `s` at or after `from`, or `n` if none.
fn find_digit_end(s: &str, from: usize, n: usize) -> (e: usize)
    requires
        n == s@.len(),
        from <= n,
    ensures
        from <= e <= n,
        e as int == digit_end(s@, from as int),
{
    let mut i: usize = from;
    while i < n
        invariant
            from <= i <= n,
            n == s@.len(),
            forall|k: int| from <= k < i ==> is_digit(s@[k]),
        decreases n - i,
    {
        if !digit_char(s.get_char(i)) {
            proof {
                lemma_digit_end_at(s@, from as int, i as int);
            }
            return i;
        }
        i = i + 1;
    }
    proof {
        lemma_digit_end_at(s@, from as int, n as int);
    }
    n
}

/// Whether `t` is a well-formed priority/version prefix.
fn check_pri(t: &str) -> (b: bool)
    ensures
        b == is_pri(t@),
{
    let n = t.unicode_len();
    if n == 0 {
        return false;
    }
    if t.get_char(0) != '<' {
        return false;
    }
    let close = find_digit_end(t, 1, n);
    if close <= 1 || close >= n {
        return false;
    }
    if t.get_char(close) != '>' {
        return false;
    }
    if n - close == 1 {
        return false;
    }
    let e = find_digit_end(t, close + 1, n);
    e == n
}

/// Whether `t` is a well-formed `YYYY-MM-DDThh:mm:ssZ` timestamp.
fn check_timestamp(t: &str) -> (b: bool)
    ensures
        b == is_timestamp(t@),
{
    let n = t.unicode_len();
    if n != 20 {
        return false;
    }
    let sep_ok = t.get_char(4) == '-' && t.get_char(7) == '-' && t.get_char(10) == 'T'
        && t.get_char(13) == ':' && t.get_char(16) == ':' && t.get_char(19) == 'Z';
    if !sep_ok {
        return false;
    }
    digit_char(t.get_char(0)) && digit_char(t.get_char(1)) && digit_char(t.get_char(2))
        && digit_char(t.get_char(3)) && digit_char(t.get_char(5)) && digit_char(t.get_char(6))
        && digit_char(t.get_char(8)) && digit_char(t.get_char(9)) && digit_char(t.get_char(11))
        && digit_char(t.get_char(12)) && digit_char(t.get_char(14)) && digit_char(t.get_char(15))
        && digit_char(t.get_char(17)) && digit_char(t.get_char(18))
}

/// Wrap the rejected line for diagnostic logging.
fn reject(raw: &str) -> (f: ParseFailure)
    ensures
        f@ == raw@,
{
    ParseFailure { raw: raw.to_owned() }
}

/// Extract the four fields from one line, or reject it.
///
/// A line that does not conform to every required token in order yields a
/// `ParseFailure` carrying the raw line; there is no partial extraction.
pub fn parse(raw: &str) -> (r: Result<LogRecord, ParseFailure>)
    ensures
        match r {
            Ok(rec) => parse_result(raw@) == Some(rec@),
            Err(f) => parse_result(raw@) is None && f@ == raw@,
        },
{
    let n = raw.unicode_len();
    let e1 = find_token_end(raw, 0, n);
    if e1 == 0 || e1 >= n {
        return Err(reject(raw));
    }
    let pri = raw.substring_char(0, e1);
    if !check_pri(pri) {
        return Err(reject(raw));
    }
    let p2 = e1 + 1;
    let e2 = find_token_end(raw, p2, n);
    if e2 >= n {
        return Err(reject(raw));
    }
    let ts = raw.substring_char(p2, e2);
    if !check_timestamp(ts) {
        return Err(reject(raw));
    }
    let p3 = e2 + 1;
    let e3 = find_token_end(raw, p3, n);
    if e3 <= p3 || e3 >= n {
        return Err(reject(raw));
    }
    let p4 = e3 + 1;
    let e4 = find_token_end(raw, p4, n);
    if e4 <= p4 || e4 >= n {
        return Err(reject(raw));
    }
    let p5 = e4 + 1;
    let e5 = find_token_end(raw, p5, n);
    if e5 - p5 != 1 || e5 >= n {
        return Err(reject(raw));
    }
    if raw.get_char(p5) != '-' {
        return Err(reject(raw));
    }
    let p6 = e5 + 1;
    let e6 = find_token_end(raw, p6, n);
    if e6 <= p6 || e6 >= n {
        return Err(reject(raw));
    }
    let p7 = e6 + 1;
    let e7 = find_token_end(raw, p7, n);
    if e7 - p7 != 1 || e7 >= n {
        return Err(reject(raw));
    }
    if raw.get_char(p7) != '-' {
        return Err(reject(raw));
    }
    let host = raw.substring_char(p3, e3);
    let level = raw.substring_char(p4, e4);
    let msg = raw.substring_char(e7 + 1, n);
    Ok(
        LogRecord {
            timestamp: ts.to_owned(),
            hostname: host.to_owned(),
            log_level: level.to_owned(),
            message: msg.to_owned(),
        },
    )
}

} // verus!
