//! The storage sink: an append-only sequence of records, the per-message
//! ingestion step that feeds it through the parser, and the filtered read
//! that the query collaborator serves over it.

use vstd::prelude::*;

use crate::parser::{parse, parse_result};
use crate::query::{matches_query, query_pred, record_matches, Query};
use crate::record::{views_of, LogRecord, ParseFailure, RecordModel};

verus! {

/// The records that one raw line contributes to the sink: its parsed record
/// if it matches the grammar, nothing otherwise.
pub open spec fn record_of_line(line: Seq<char>) -> Seq<RecordModel> {
    match parse_result(line) {
        Option::Some(v) => seq![v],
        Option::None => Seq::empty(),
    }
}

/// The records that a sequence of raw lines leaves in the sink, in order:
/// each line that matches the grammar contributes its record, every other
/// line is skipped.
pub open spec fn stored_records(lines: Seq<Seq<char>>) -> Seq<RecordModel>
    decreases lines.len(),
{
    if lines.len() == 0 {
        Seq::empty()
    } else {
        stored_records(lines.drop_last()) + record_of_line(lines.last())
    }
}

/// The append-only sink of parsed records. Records are immutable once
/// written and there is no update or delete path; writes only ever extend
/// the sequence.
pub struct Store {
    records: Vec<LogRecord>,
}

impl View for Store {
    type V = Seq<RecordModel>;

    closed spec fn view(&self) -> Seq<RecordModel> {
        views_of(self.records@)
    }
}

impl Store {
    /// An empty sink.
    pub fn new() -> (s: Store)
        ensures
            s@ == Seq::<RecordModel>::empty(),
    {
        let s = Store { records: Vec::new() };
        proof {
            assert(s@ =~= Seq::<RecordModel>::empty());
        }
        s
    }

    /// How many records have been written so far.
    pub fn len(&self) -> (n: usize)
        ensures
            n == self@.len(),
    {
        self.records.len()
    }

    /// Append one record as one new row; nothing already stored changes.
    pub fn write(&mut self, rec: LogRecord)
        ensures
            final(self)@ == old(self)@.push(rec@),
    {
        let ghost rv = rec@;
        self.records.push(rec);
        proof {
            assert(self@ =~= old(self)@.push(rv));
        }
    }

    /// Run one raw message through Parser → Sink: a line that matches the
    /// grammar is appended as a record; any other line leaves the store
    /// unchanged and hands back the failure, for the caller to log and skip.
    pub fn process_log(&mut self, line: &str) -> (r: Result<(), ParseFailure>)
        ensures
            match r {
                Ok(_) => parse_result(line@) is Some && final(self)@ == old(self)@.push(
                    parse_result(line@)->0,
                ),
                Err(f) => parse_result(line@) is None && final(self)@ == old(self)@ && f@
                    == line@,
            },
    {
        match parse(line) {
            Ok(rec) => {
                self.write(rec);
                Ok(())
            },
            Err(f) => Err(f),
        }
    }

    /// Drain a batch of already-framed messages in order, as one connection
    /// handler does: each is parsed and, on success, written before the next
    /// is taken up; a malformed line is skipped and never ends the drain.
    /// Returns how many lines were stored.
    pub fn process_lines(&mut self, lines: &Vec<String>) -> (stored: usize)
        ensures
            final(self)@ == old(self)@ + stored_records(lines@.map_values(|l: String| l@)),
            stored == stored_records(lines@.map_values(|l: String| l@)).len(),
    {
        let ghost init = self@;
        let ghost lv = lines@.map_values(|l: String| l@);
        let mut stored: usize = 0;
        let mut i: usize = 0;
        proof {
            assert(lv.subrange(0, 0) =~= Seq::<Seq<char>>::empty());
            assert(init + stored_records(lv.subrange(0, 0)) =~= init);
        }
        while i < lines.len()
            invariant
                0 <= i <= lines@.len(),
                lv == lines@.map_values(|l: String| l@),
                self@ == init + stored_records(lv.subrange(0, i as int)),
                stored == stored_records(lv.subrange(0, i as int)).len(),
                stored <= i,
            decreases lines@.len() - i,
        {
            let r = self.process_log(lines[i].as_str());
            if r.is_ok() {
                stored = stored + 1;
            }
            proof {
                let pre = lv.subrange(0, i as int);
                let cur = lv.subrange(0, i + 1);
                assert(cur.drop_last() =~= pre);
                assert(cur.last() == lv[i as int]);
                assert(stored_records(cur) == stored_records(pre) + record_of_line(lv[i as int]));
                assert(self@ =~= init + stored_records(cur));
            }
            i = i + 1;
        }
        proof {
            assert(lv.subrange(0, lines@.len() as int) =~= lv);
        }
        stored
    }

    /// The query collaborator's read over the table: every stored record
    /// that matches the query, in storage order.
    pub fn search_logs(&self, q: &Query) -> (out: Vec<LogRecord>)
        ensures
            views_of(out@) == self@.filter(query_pred(q@)),
    {
        let ghost pred = query_pred(q@);
        let mut out: Vec<LogRecord> = Vec::new();
        let mut i: usize = 0;
        proof {
            reveal(Seq::filter);
            assert(self@.subrange(0, 0) =~= Seq::<RecordModel>::empty());
            assert(views_of(out@) =~= self@.subrange(0, 0).filter(pred));
        }
        while i < self.records.len()
            invariant
                0 <= i <= self.records@.len(),
                pred == query_pred(q@),
                self@ == views_of(self.records@),
                views_of(out@) == self@.subrange(0, i as int).filter(pred),
            decreases self.records@.len() - i,
        {
            let ghost prev = out@;
            let rec = &self.records[i];
            if record_matches(rec, q) {
                out.push(rec.clone());
            }
            proof {
                reveal(Seq::filter);
                let pre = self@.subrange(0, i as int);
                let cur = self@.subrange(0, i + 1);
                assert(cur.drop_last() =~= pre);
                assert(cur.last() == self@[i as int]);
                assert(self@[i as int] == self.records@[i as int]@);
                if matches_query(self.records@[i as int]@, q@) {
                    assert(views_of(out@) =~= views_of(prev).push(self.records@[i as int]@));
                    assert(cur.filter(pred) == pre.filter(pred).push(cur.last()));
                } else {
                    assert(cur.filter(pred) == pre.filter(pred));
                }
                assert(views_of(out@) == cur.filter(pred));
            }
            i = i + 1;
        }
        proof {
            assert(self@.subrange(0, self.records@.len() as int) =~= self@);
        }
        out
    }
}

/// Rejection is idempotent: feeding the same malformed line twice stores
/// nothing either time; each feeding yields its own independent failure, as
/// `process_log`'s contract states.
pub proof fn lemma_rejection_stores_nothing(bad: Seq<char>)
    requires
        parse_result(bad) is None,
    ensures
        stored_records(seq![bad, bad]) == Seq::<RecordModel>::empty(),
{
    reveal_with_fuel(stored_records, 3);
    let two = seq![bad, bad];
    let one = seq![bad];
    assert(two.drop_last() =~= one);
    assert(one.drop_last() =~= Seq::<Seq<char>>::empty());
    assert(stored_records(one) =~= Seq::<RecordModel>::empty());
    assert(stored_records(two) =~= Seq::<RecordModel>::empty());
}

/// Within one connection, messages are stored in send order: a batch whose
/// lines all match the grammar stores exactly one record per line, the i-th
/// stored record being the record of the i-th line.
pub proof fn lemma_ordered_batch(lines: Seq<Seq<char>>)
    requires
        forall|i: int| 0 <= i < lines.len() ==> parse_result(#[trigger] lines[i]) is Some,
    ensures
        stored_records(lines).len() == lines.len(),
        forall|i: int|
            0 <= i < lines.len() ==> #[trigger] stored_records(lines)[i] == parse_result(
                lines[i],
            )->0,
    decreases lines.len(),
{
    if lines.len() > 0 {
        let front = lines.drop_last();
        assert(forall|i: int| 0 <= i < front.len() ==> front[i] == lines[i]);
        lemma_ordered_batch(front);
        assert(stored_records(lines) == stored_records(front) + record_of_line(lines.last()));
        assert(record_of_line(lines.last()) == seq![parse_result(lines.last())->0]);
        assert forall|i: int| 0 <= i < lines.len() implies #[trigger] stored_records(lines)[i]
            == parse_result(lines[i])->0 by {
            if i < lines.len() - 1 {
                assert(stored_records(lines)[i] == stored_records(front)[i]);
            } else {
                assert(stored_records(lines)[i] == parse_result(lines.last())->0);
            }
        }
    }
}

/// Batches compose: draining one batch and then another leaves the records
/// of the first followed by the records of the second. With
/// `lemma_ordered_batch`, M senders of K well-formed messages each leave
/// exactly M×K records, however their batches reach the sink.
pub proof fn lemma_stored_records_concat(a: Seq<Seq<char>>, b: Seq<Seq<char>>)
    ensures
        stored_records(a + b) == stored_records(a) + stored_records(b),
    decreases b.len(),
{
    if b.len() == 0 {
        assert(a + b =~= a);
        assert(stored_records(b) =~= Seq::<RecordModel>::empty());
        assert(stored_records(a) + stored_records(b) =~= stored_records(a));
    } else {
        lemma_stored_records_concat(a, b.drop_last());
        assert((a + b).drop_last() =~= a + b.drop_last());
        assert((a + b).last() == b.last());
        assert(stored_records(a + b) =~= stored_records(a) + stored_records(b));
    }
}

/// Resilience: one malformed message followed by one well-formed message
/// stores exactly the record of the well-formed one; the malformed message
/// never ends the connection, so the well-formed one is still processed.
pub proof fn lemma_malformed_then_wellformed(bad: Seq<char>, good: Seq<char>)
    requires
        parse_result(bad) is None,
        parse_result(good) is Some,
    ensures
        stored_records(seq![bad, good]) == seq![parse_result(good)->0],
{
    reveal_with_fuel(stored_records, 3);
    let two = seq![bad, good];
    let one = seq![bad];
    assert(two.drop_last() =~= one);
    assert(one.drop_last() =~= Seq::<Seq<char>>::empty());
    assert(stored_records(one) =~= Seq::<RecordModel>::empty());
    assert(stored_records(two) =~= seq![parse_result(good)->0]);
}

} // verus!
