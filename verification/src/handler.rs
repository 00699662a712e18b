//! The per-connection decision step shared by the TCP and UDP handlers: one
//! read's bytes are decoded (invalid sequences replaced, never fatal), parsed,
//! and turned into the action the surrounding I/O loop performs. Failures at
//! the per-message granularity never end the loop; only end-of-stream or a
//! read error does.

use vstd::prelude::*;

use crate::parser::{parse, parse_result};
use crate::record::{LogRecord, ParseFailure};

verus! {

/// What decoding a byte sequence as text yields, with every invalid sequence
/// replaced by the replacement-character sentinel. A function of the bytes
/// alone.
pub uninterp spec fn lossy_decode(bytes: Seq<u8>) -> Seq<char>;

/// Relies on String::from_utf8_lossy: decodes UTF-8, substituting the
/// replacement character for invalid sequences; the result depends on the
/// bytes alone.
#[verifier::external_body]
fn decode_chunk(bytes: &[u8]) -> (s: String)
    ensures
        s@ == lossy_decode(bytes@),
{
    String::from_utf8_lossy(bytes).into_owned()
}

/// What one read from the transport yielded.
pub enum ReadEvent {
    /// A chunk of bytes: one candidate message.
    Data(Vec<u8>),
    /// A zero-length read: the peer closed the stream in order.
    Closed,
    /// A read error other than end-of-stream.
    Failed,
}

/// What the I/O loop does next.
pub enum ConnAction {
    /// Hand this record to the sink, then read again.
    WriteRecord(LogRecord),
    /// Log this failure, drop the message, then read again.
    Skip(ParseFailure),
    /// End this handler; the transport loop itself keeps running.
    Stop,
}

/// Decide what to do with one read result. Data is decoded and parsed: a
/// record to write if the text matches the grammar, a failure to log and
/// skip otherwise — a malformed message never stops the handler. An orderly
/// close or a read error stops it.
pub fn next_action(ev: ReadEvent) -> (a: ConnAction)
    ensures
        match ev {
            ReadEvent::Data(bytes) => match a {
                ConnAction::WriteRecord(rec) => parse_result(lossy_decode(bytes@)) == Some(rec@),
                ConnAction::Skip(f) => parse_result(lossy_decode(bytes@)) is None && f@
                    == lossy_decode(bytes@),
                ConnAction::Stop => false,
            },
            ReadEvent::Closed => a is Stop,
            ReadEvent::Failed => a is Stop,
        },
{
    match ev {
        ReadEvent::Data(bytes) => {
            let text = decode_chunk(bytes.as_slice());
            match parse(text.as_str()) {
                Ok(rec) => ConnAction::WriteRecord(rec),
                Err(f) => ConnAction::Skip(f),
            }
        },
        ReadEvent::Closed => ConnAction::Stop,
        ReadEvent::Failed => ConnAction::Stop,
    }
}

} // verus!
