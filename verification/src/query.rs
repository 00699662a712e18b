//! The query interface served over the persisted records: optional equality
//! filters on hostname and log level, and a substring filter on the message.
//! An absent filter matches every record.

use vstd::prelude::*;

use crate::record::{LogRecord, RecordModel};

verus! {

/// The mathematical model of a query: each filter either absent or a
/// character sequence.
pub struct QueryModel {
    pub hostname: Option<Seq<char>>,
    pub log_level: Option<Seq<char>>,
    pub message: Option<Seq<char>>,
}

/// One query over the stored records: equality filters on `hostname` and
/// `log_level`, a substring filter on `message`; `None` means "match all".
pub struct Query {
    pub hostname: Option<String>,
    pub log_level: Option<String>,
    pub message: Option<String>,
}

impl View for Query {
    type V = QueryModel;

    open spec fn view(&self) -> QueryModel {
        QueryModel {
            hostname: match self.hostname {
                Option::Some(h) => Option::Some(h@),
                Option::None => Option::None,
            },
            log_level: match self.log_level {
                Option::Some(l) => Option::Some(l@),
                Option::None => Option::None,
            },
            message: match self.message {
                Option::Some(m) => Option::Some(m@),
                Option::None => Option::None,
            },
        }
    }
}

impl Query {
    /// The query with no filters: it matches every record.
    pub fn match_all() -> (q: Query)
        ensures
            q@.hostname is None,
            q@.log_level is None,
            q@.message is None,
    {
        Query { hostname: Option::None, log_level: Option::None, message: Option::None }
    }
}

/// `needle` occurs contiguously somewhere in `hay`.
pub open spec fn contains_substring(hay: Seq<char>, needle: Seq<char>) -> bool {
    exists|i: int|
        0 <= i && i + needle.len() <= hay.len() && #[trigger] hay.subrange(i, i + needle.len())
            == needle
}

/// A record matches a query when every present filter holds of it: hostname
/// and log level by equality, message by substring containment.
pub open spec fn matches_query(r: RecordModel, q: QueryModel) -> bool {
    &&& match q.hostname {
        Option::Some(h) => r.hostname == h,
        Option::None => true,
    }
    &&& match q.log_level {
        Option::Some(l) => r.log_level == l,
        Option::None => true,
    }
    &&& match q.message {
        Option::Some(m) => contains_substring(r.message, m),
        Option::None => true,
    }
}

/// The predicate that `q` imposes on stored records.
pub open spec fn query_pred(q: QueryModel) -> spec_fn(RecordModel) -> bool {
    |r: RecordModel| matches_query(r, q)
}

/// Round trip: a query with no filters matches every record, so reading a
/// store holding exactly the records `rs` back through it returns exactly
/// `rs`, in storage order.
pub proof fn lemma_unfiltered_query_returns_all(rs: Seq<RecordModel>, q: QueryModel)
    requires
        q.hostname is None,
        q.log_level is None,
        q.message is None,
    ensures
        rs.filter(query_pred(q)) == rs,
    decreases rs.len(),
{
    reveal(Seq::filter);
    if rs.len() == 0 {
        assert(rs.filter(query_pred(q)) =~= rs);
    } else {
        lemma_unfiltered_query_returns_all(rs.drop_last(), q);
        assert(matches_query(rs.last(), q));
        assert(rs.filter(query_pred(q)) =~= rs);
    }
}

/// Whether `needle` occurs in `hay` starting exactly at `at`.
fn match_at(hay: &str, needle: &str, at: usize, hn: usize, nn: usize) -> (b: bool)
    requires
        hn == hay@.len(),
        nn == needle@.len(),
        at + nn <= hn,
    ensures
        b == (hay@.subrange(at as int, at + needle@.len()) == needle@),
{
    let mut j: usize = 0;
    while j < nn
        invariant
            0 <= j <= nn,
            hn == hay@.len(),
            nn == needle@.len(),
            at + nn <= hn,
            forall|k: int| 0 <= k < j ==> hay@[at + k] == needle@[k],
        decreases nn - j,
    {
        if hay.get_char(at + j) != needle.get_char(j) {
            proof {
                assert(hay@.subrange(at as int, at + needle@.len())[j as int] != needle@[j as int]);
            }
            return false;
        }
        j = j + 1;
    }
    proof {
        assert(hay@.subrange(at as int, at + needle@.len()) =~= needle@);
    }
    true
}

/// Whether `needle` occurs contiguously anywhere in `hay`.
fn contains_substr(hay: &str, needle: &str) -> (b: bool)
    ensures
        b == contains_substring(hay@, needle@),
{
    let hn = hay.unicode_len();
    let nn = needle.unicode_len();
    if nn > hn {
        proof {
            assert(!contains_substring(hay@, needle@)) by {
                if contains_substring(hay@, needle@) {
                    let w = choose|w: int|
                        0 <= w && w + needle@.len() <= hay@.len() && #[trigger] hay@.subrange(
                            w,
                            w + needle@.len(),
                        ) == needle@;
                    assert(false);
                }
            }
        }
        return false;
    }
    if nn == 0 {
        proof {
            assert(hay@.subrange(0, 0 + needle@.len() as int) =~= needle@);
        }
        return true;
    }
    let mut i: usize = 0;
    while i <= hn - nn
        invariant
            0 <= i <= hn - nn + 1,
            1 <= nn <= hn,
            hn == hay@.len(),
            nn == needle@.len(),
            forall|k: int| 0 <= k < i ==> #[trigger] hay@.subrange(k, k + needle@.len()) != needle@,
        decreases hn - i,
    {
        if match_at(hay, needle, i, hn, nn) {
            proof {
                assert(contains_substring(hay@, needle@));
            }
            return true;
        }
        i = i + 1;
    }
    proof {
        assert(!contains_substring(hay@, needle@)) by {
            if contains_substring(hay@, needle@) {
                let w = choose|w: int|
                    0 <= w && w + needle@.len() <= hay@.len() && #[trigger] hay@.subrange(
                        w,
                        w + needle@.len(),
                    ) == needle@;
                assert(hay@.subrange(w, w + needle@.len()) != needle@);
                assert(false);
            }
        }
    }
    false
}

/// Whether one stored record satisfies every present filter of `q`.
pub fn record_matches(r: &LogRecord, q: &Query) -> (b: bool)
    ensures
        b == matches_query(r@, q@),
{
    let host_ok = match &q.hostname {
        Option::Some(h) => *h == r.hostname,
        Option::None => true,
    };
    if !host_ok {
        return false;
    }
    let level_ok = match &q.log_level {
        Option::Some(l) => *l == r.log_level,
        Option::None => true,
    };
    if !level_ok {
        return false;
    }
    match &q.message {
        Option::Some(m) => contains_substr(r.message.as_str(), m.as_str()),
        Option::None => true,
    }
}

} // verus!
