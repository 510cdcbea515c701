//! The read-side query surface: summaries of recently stored spans,
//! assembled from the storage port's list and read operations. The
//! HTTP plumbing around it lives outside the library; this module owns
//! the logic.
use vstd::prelude::*;

use crate::codec::spec_parse_record;
use crate::error::StorageError;
use crate::storage::{
    entries_newest_first, log_has_key, reads_latest, SpanEntry, StorageWriter, StoredSpan,
    StoredSpanView,
};

verus! {

/// Query parameters for span retrieval.
#[derive(Debug, Clone, PartialEq)]
pub struct SpanQuery {
    /// Maximum number of spans to return.
    pub limit: Option<usize>,
}

/// Summary of a span for API responses.
#[derive(Debug, Clone, PartialEq)]
pub struct SpanSummary {
    /// Unique identifier for the trace.
    pub trace_id: String,
    /// Unique identifier for the span.
    pub span_id: String,
    /// Name of the operation.
    pub name: String,
    /// Start time in nanoseconds since epoch.
    pub timestamp: u64,
    /// Duration of the span in nanoseconds.
    pub duration_ns: u64,
}

/// The mathematical image of a summary.
#[verifier::ext_equal]
pub struct SpanSummaryView {
    pub trace_id: Seq<char>,
    pub span_id: Seq<char>,
    pub name: Seq<char>,
    pub timestamp: u64,
    pub duration_ns: u64,
}

impl View for SpanSummary {
    type V = SpanSummaryView;

    open spec fn view(&self) -> SpanSummaryView {
        SpanSummaryView {
            trace_id: self.trace_id@,
            span_id: self.span_id@,
            name: self.name@,
            timestamp: self.timestamp,
            duration_ns: self.duration_ns,
        }
    }
}

/// What a stored span summarizes to: identifiers and name carried
/// over, the start time as the timestamp, and the duration as the time
/// span between start and end — zero when the end precedes the start,
/// which this layer does not enforce against.
pub open spec fn summary_of(v: StoredSpanView) -> SpanSummaryView {
    SpanSummaryView {
        trace_id: v.trace_id,
        span_id: v.span_id,
        name: v.name,
        timestamp: v.start_time,
        duration_ns: if v.end_time >= v.start_time {
            (v.end_time - v.start_time) as u64
        } else {
            0
        },
    }
}

/// A summary that some record in the storage log backs: the log holds
/// bytes that parse to a stored span summarizing to it.
pub open spec fn summary_backed_by_log(
    log: Seq<(Seq<char>, Seq<u8>)>,
    s: SpanSummaryView,
) -> bool {
    exists|j: int|
        0 <= j < log.len() && (spec_parse_record(#[trigger] log[j].1) matches Some(sv) && s
            == summary_of(sv))
}

/// A summary obtained by reading back a key: it summarizes the newest
/// record the log holds under that key.
pub open spec fn summary_reads_latest(
    log: Seq<(Seq<char>, Seq<u8>)>,
    key: Seq<char>,
    s: SpanSummaryView,
) -> bool {
    exists|sv: StoredSpanView| #[trigger] reads_latest(log, key, sv) && s == summary_of(sv)
}

/// The summaries correspond, in order, to the successfully read
/// entries of a listing: a strictly increasing selection of entry
/// indices, each summary reading back the newest record under its
/// entry's key. Summaries therefore inherit the listing's
/// newest-first order.
pub open spec fn summaries_follow_listing(
    log: Seq<(Seq<char>, Seq<u8>)>,
    es: Seq<SpanEntry>,
    picks: Seq<int>,
    v: Seq<SpanSummary>,
) -> bool {
    &&& picks.len() == v.len()
    &&& (forall|k: int| 0 <= k < picks.len() ==> 0 <= #[trigger] picks[k] < es.len())
    &&& (forall|k1: int, k2: int| 0 <= k1 < k2 < picks.len() ==> picks[k1] < picks[k2])
    &&& (forall|k: int|
        0 <= k < v.len() ==> summary_reads_latest(log, es[picks[k]].key@, (#[trigger] v[k])@))
}

impl SpanSummary {
    /// Summarizes one stored span, as `summary_of` states.
    pub fn from_stored(span: StoredSpan) -> (r: Self)
        ensures
            r@ == summary_of(span@),
    {
        let duration_ns: u64 = if span.end_time >= span.start_time {
            span.end_time - span.start_time
        } else {
            0
        };
        SpanSummary {
            trace_id: span.trace_id,
            span_id: span.span_id,
            name: span.name,
            timestamp: span.start_time,
            duration_ns,
        }
    }
}

impl From<StoredSpan> for SpanSummary {
    /// Summarizes one stored span; the exact fields are stated by
    /// `SpanSummary::from_stored`, to which this delegates.
    fn from(span: StoredSpan) -> (r: Self) {
        SpanSummary::from_stored(span)
    }
}

impl vstd::std_specs::convert::FromSpecImpl<StoredSpan> for SpanSummary {
    open spec fn obeys_from_spec() -> bool {
        // The summary carries `String` fields, which a spec function
        // cannot construct; the conversion is pinned down at the view
        // level by `from_stored` instead of by an exact `from_spec`
        // equation.
        false
    }

    open spec fn from_spec(span: StoredSpan) -> SpanSummary {
        arbitrary()
    }
}

/// Query component for retrieving recent spans through a storage port.
pub struct SpanReader<S: StorageWriter> {
    /// Storage backend for retrieving spans.
    storage: S,
}

impl<S: StorageWriter> SpanReader<S> {
    /// The storage log of the reader's backend.
    pub closed spec fn log(&self) -> Seq<(Seq<char>, Seq<u8>)> {
        self.storage.contents()
    }

    /// Creates a new SpanReader with the specified storage backend.
    pub fn new(storage: S) -> (r: Self)
        ensures
            r.log() == storage.contents(),
    {
        Self { storage }
    }

    /// Retrieves summaries of recent spans from storage: at most
    /// `limit`, corresponding in order to the successfully read
    /// entries of a newest-first listing, each summarizing the newest
    /// record under its entry's key. An entry whose record cannot be
    /// read back is skipped, not an error; the only failure this
    /// returns is the listing's own.
    pub fn get_recent_spans(&self, limit: usize) -> (r: Result<Vec<SpanSummary>, StorageError>)
        ensures
            r matches Ok(v) ==> v@.len() <= limit && (forall|i: int|
                0 <= i < v@.len() ==> summary_backed_by_log(self.log(), (#[trigger] v@[i])@))
                && (exists|es: Seq<SpanEntry>, picks: Seq<int>|
                {
                    &&& es.len() <= limit
                    &&& entries_newest_first(es)
                    &&& (forall|i: int|
                        0 <= i < es.len() ==> log_has_key(self.log(), (#[trigger] es[i]).key@))
                    &&& #[trigger] summaries_follow_listing(self.log(), es, picks, v@)
                }),
    {
        let entries = match self.storage.list(limit) {
            Ok(es) => es,
            Err(e) => {
                return Err(e);
            },
        };
        let mut summaries: Vec<SpanSummary> = Vec::new();
        let ghost mut picks: Seq<int> = Seq::empty();
        let mut i: usize = 0;
        while i < entries.len()
            invariant
                0 <= i <= entries@.len(),
                entries@.len() <= limit,
                entries_newest_first(entries@),
                forall|t: int|
                    0 <= t < entries@.len() ==> log_has_key(
                        self.log(),
                        (#[trigger] entries@[t]).key@,
                    ),
                summaries@.len() <= i,
                picks.len() == summaries@.len(),
                forall|k: int| 0 <= k < picks.len() ==> 0 <= #[trigger] picks[k] < i,
                forall|k1: int, k2: int| 0 <= k1 < k2 < picks.len() ==> picks[k1] < picks[k2],
                forall|k: int|
                    0 <= k < summaries@.len() ==> summary_reads_latest(
                        self.log(),
                        entries@[picks[k]].key@,
                        (#[trigger] summaries@[k])@,
                    ),
                forall|t: int|
                    0 <= t < summaries@.len() ==> summary_backed_by_log(
                        self.log(),
                        (#[trigger] summaries@[t])@,
                    ),
            decreases entries@.len() - i,
        {
            let entry = &entries[i];
            match self.storage.read(entry.key.as_str()) {
                Ok(content) => {
                    let ghost cv = content@;
                    summaries.push(SpanSummary::from_stored(content));
                    proof {
                        picks = picks.push(i as int);
                        assert(reads_latest(self.log(), entries@[i as int].key@, cv));
                        assert(summary_reads_latest(
                            self.log(),
                            entries@[i as int].key@,
                            summaries@.last()@,
                        ));
                    }
                },
                Err(_) => {},
            }
            i = i + 1;
        }
        proof {
            assert(summaries_follow_listing(self.log(), entries@, picks, summaries@));
        }
        Ok(summaries)
    }
}

} // verus!
