//! The unit persisted per ingested message, and the value that stands for a
//! line the parser rejected.

use vstd::prelude::*;

verus! {

/// The mathematical model of one log record: the four captured fields as
/// character sequences.
pub struct RecordModel {
    pub timestamp: Seq<char>,
    pub hostname: Seq<char>,
    pub log_level: Seq<char>,
    pub message: Seq<char>,
}

/// The models of a sequence of records, element by element.
pub open spec fn views_of(rs: Seq<LogRecord>) -> Seq<RecordModel> {
    rs.map_values(|r: LogRecord| r@)
}

/// One structured log entry, built only from a line that fully matches the
/// syslog grammar. Immutable once created; storage of records is append-only.
#[derive(Debug)]
pub struct LogRecord {
    /// ISO-8601 UTC date-time, extracted verbatim from the message.
    pub timestamp: String,
    /// Originating host identifier; contains no whitespace.
    pub hostname: String,
    /// Severity/application tag; contains no whitespace.
    pub log_level: String,
    /// Free-form trailing payload; may contain any characters, including the
    /// delimiters the grammar uses earlier in the line.
    pub message: String,
}

impl View for LogRecord {
    type V = RecordModel;

    open spec fn view(&self) -> RecordModel {
        RecordModel {
            timestamp: self.timestamp@,
            hostname: self.hostname@,
            log_level: self.log_level@,
            message: self.message@,
        }
    }
}

impl Clone for LogRecord {
    fn clone(&self) -> (r: Self)
        ensures
            r@ == self@,
    {
        LogRecord {
            timestamp: self.timestamp.clone(),
            hostname: self.hostname.clone(),
            log_level: self.log_level.clone(),
            message: self.message.clone(),
        }
    }
}

/// "This text did not conform to the grammar": a value the caller inspects and
/// routes to "skip and continue", never a program abort.
#[derive(Debug)]
pub struct ParseFailure {
    /// The original raw line, kept for diagnostic logging.
    pub raw: String,
}

impl View for ParseFailure {
    type V = Seq<char>;

    open spec fn view(&self) -> Seq<char> {
        self.raw@
    }
}

impl Clone for ParseFailure {
    fn clone(&self) -> (r: Self)
        ensures
            r@ == self@,
    {
        ParseFailure { raw: self.raw.clone() }
    }
}

} // verus!
