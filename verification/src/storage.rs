//! The storage side of the pipeline: the durable form of a span, the
//! key scheme that places each span record under the configured prefix,
//! and the abstract storage port that any backend implements.
use vstd::prelude::*;

use vstd::string::StringSliceAdditionalSpecFns;
use vstd::utf8::{encode_utf8, encode_utf8_decode_utf8};

use crate::codec::{record_bytes, spec_parse_record};
use crate::error::StorageError;
use crate::span::{kind_label, status_label, SpanData, SpanDataView};

verus! {

/// Represents a stored span with serializable fields: the durable form
/// of a span, created at write time and immutable thereafter.
#[derive(Debug, Clone, PartialEq)]
pub struct StoredSpan {
    /// Unique identifier for the trace this span belongs to, in hex.
    pub trace_id: String,
    /// Unique identifier for this span, in hex.
    pub span_id: String,
    /// Name of the operation this span represents.
    pub name: String,
    /// Type of span (client, server, etc.), as its label.
    pub kind: String,
    /// Start time in nanoseconds since epoch.
    pub start_time: u64,
    /// End time in nanoseconds since epoch.
    pub end_time: u64,
    /// Status of the operation (success, error, etc.), as its label.
    pub status: String,
}

/// The mathematical image of a stored span: its text fields as
/// character sequences.
#[verifier::ext_equal]
pub struct StoredSpanView {
    pub trace_id: Seq<char>,
    pub span_id: Seq<char>,
    pub name: Seq<char>,
    pub kind: Seq<char>,
    pub start_time: u64,
    pub end_time: u64,
    pub status: Seq<char>,
}

impl View for StoredSpan {
    type V = StoredSpanView;

    open spec fn view(&self) -> StoredSpanView {
        StoredSpanView {
            trace_id: self.trace_id@,
            span_id: self.span_id@,
            name: self.name@,
            kind: self.kind@,
            start_time: self.start_time,
            end_time: self.end_time,
            status: self.status@,
        }
    }
}

/// The durable form of an internal span: identifier and name text
/// carried over, kind and status rendered as their labels. Attribute,
/// event and link contents are intentionally not persisted.
pub open spec fn stored_span_of(v: SpanDataView) -> StoredSpanView {
    StoredSpanView {
        trace_id: v.trace_id,
        span_id: v.span_id,
        name: v.name,
        kind: kind_label(v.span_kind),
        start_time: v.start_time_unix_nano,
        end_time: v.end_time_unix_nano,
        status: status_label(v.status),
    }
}

/// Represents a span entry in storage with metadata.
#[derive(Debug, Clone, PartialEq)]
pub struct SpanEntry {
    /// Storage key for the span.
    pub key: String,
    /// Last modification time of the span data, in seconds since the
    /// epoch.
    pub last_modified: u64,
}

impl View for SpanEntry {
    type V = (Seq<char>, u64);

    open spec fn view(&self) -> (Seq<char>, u64) {
        (self.key@, self.last_modified)
    }
}

/// A prefix with its trailing separators stripped.
pub open spec fn strip_trailing_slashes(s: Seq<char>) -> Seq<char>
    decreases s.len(),
{
    if s.len() > 0 && s.last() == '/' {
        strip_trailing_slashes(s.drop_last())
    } else {
        s
    }
}

/// Where a key lands under a prefix: the empty prefix leaves the key
/// alone; otherwise the normalized prefix and the key are joined with a
/// single separator.
pub open spec fn full_key(prefix: Seq<char>, key: Seq<char>) -> Seq<char> {
    if prefix.len() == 0 {
        key
    } else {
        strip_trailing_slashes(prefix) + "/"@ + key
    }
}

/// The relative key of one span record: `{trace_id}/{span_id}.json`,
/// placed under the prefix by `full_key`.
pub open spec fn span_key(v: StoredSpanView) -> Seq<char> {
    v.trace_id + "/"@ + v.span_id + ".json"@
}

/// Key scheme law: among identifiers of the fixed widths, the span key
/// determines the trace and span identifiers — two spans land under
/// the same key only when they carry the same identifiers.
pub proof fn lemma_span_key_injective(a: StoredSpanView, b: StoredSpanView)
    requires
        a.trace_id.len() == b.trace_id.len(),
        a.span_id.len() == b.span_id.len(),
        span_key(a) == span_key(b),
    ensures
        a.trace_id == b.trace_id,
        a.span_id == b.span_id,
{
    reveal_strlit("/");
    reveal_strlit(".json");
    let tl = a.trace_id.len() as int;
    let sl = a.span_id.len() as int;
    assert(span_key(a).subrange(0, tl) =~= a.trace_id);
    assert(span_key(b).subrange(0, tl) =~= b.trace_id);
    assert(span_key(a).subrange(tl + 1, tl + 1 + sl) =~= a.span_id);
    assert(span_key(b).subrange(tl + 1, tl + 1 + sl) =~= b.span_id);
}

/// The storage log entries that persisting a sequence of spans appends:
/// for each span, its record bytes under its key, placed under the
/// prefix.
pub open spec fn span_records(prefix: Seq<char>, spans: Seq<SpanDataView>) -> Seq<
    (Seq<char>, Seq<u8>),
> {
    spans.map_values(
        |v: SpanDataView|
            (full_key(prefix, span_key(stored_span_of(v))), record_bytes(stored_span_of(v))),
    )
}

/// The views of a sequence of spans, in order.
pub open spec fn span_views(spans: Seq<SpanData>) -> Seq<SpanDataView> {
    spans.map_values(|d: SpanData| d@)
}

/// The storage log entries that a batch write appends: each entry's
/// bytes under its key, placed under the prefix.
pub open spec fn batch_entries(prefix: Seq<char>, entries: Seq<(String, Vec<u8>)>) -> Seq<
    (Seq<char>, Seq<u8>),
> {
    entries.map_values(|e: (String, Vec<u8>)| (full_key(prefix, e.0@), e.1@))
}

/// The shape of one logged write: its full key text with its bytes.
pub type LogEntry = (Seq<char>, Seq<u8>);

/// The shape of the abstract write log a storage port is modeled by;
/// named so that implementations outside the library can write the
/// model functions' signatures.
pub type StorageLog = Seq<LogEntry>;

/// The shape of a storage port's configured key prefix.
pub type KeyText = Seq<char>;

/// Whether the write log holds an entry under the given key.
pub open spec fn log_has_key(log: Seq<(Seq<char>, Seq<u8>)>, key: Seq<char>) -> bool {
    exists|j: int| 0 <= j < log.len() && (#[trigger] log[j]).0 == key
}

/// Whether `v` is the parse of the newest record the log holds under
/// the given key: an entry after the last write under a key never
/// speaks for it.
pub open spec fn reads_latest(log: Seq<(Seq<char>, Seq<u8>)>, key: Seq<char>, v: StoredSpanView) -> bool {
    exists|j: int|
        {
            &&& 0 <= j < log.len()
            &&& (#[trigger] log[j]).0 == key
            &&& (forall|t: int| j < t < log.len() ==> (#[trigger] log[t]).0 != key)
            &&& spec_parse_record(log[j].1) == Some(v)
        }
}

/// Write-then-read round trip: after a batch of spans is persisted —
/// their records appended to whatever the log already held — any
/// successful read of one of their keys returns exactly that span's
/// stored form, provided no later span of the batch reuses the key.
/// The latest-wins read contract and the codec round trip leave no
/// other answer; by `lemma_span_key_injective`, distinct identifiers
/// never reuse a key.
pub proof fn lemma_written_span_recovered(
    c0: Seq<(Seq<char>, Seq<u8>)>,
    prefix: Seq<char>,
    views: Seq<SpanDataView>,
    i: int,
    s: StoredSpanView,
)
    requires
        0 <= i < views.len(),
        forall|j: int|
            i < j < views.len() ==> full_key(
                prefix,
                span_key(stored_span_of(#[trigger] views[j])),
            ) != full_key(prefix, span_key(stored_span_of(views[i]))),
        reads_latest(
            c0 + span_records(prefix, views),
            full_key(prefix, span_key(stored_span_of(views[i]))),
            s,
        ),
    ensures
        s == stored_span_of(views[i]),
{
    let key = full_key(prefix, span_key(stored_span_of(views[i])));
    let appended = span_records(prefix, views);
    let log = c0 + appended;
    let pos = c0.len() + i;
    assert(log[pos] == (key, record_bytes(stored_span_of(views[i]))));
    let j = choose|j: int|
        {
            &&& 0 <= j < log.len()
            &&& (#[trigger] log[j]).0 == key
            &&& (forall|t: int| j < t < log.len() ==> (#[trigger] log[t]).0 != key)
            &&& spec_parse_record(log[j].1) == Some(s)
        };
    // Nothing after `j` matches the key, and the record written for
    // this span does, so `j` is not before it; nothing written after
    // it in the batch reuses the key, so `j` is not after it either.
    assert(j >= pos);
    if j > pos {
        let t = j - c0.len();
        assert(log[j] == appended[t]);
        assert(appended[t].0 == full_key(prefix, span_key(stored_span_of(views[t]))));
        assert(false);
    }
    crate::codec::lemma_record_round_trip(stored_span_of(views[i]));
    assert(Some(s) == Some(stored_span_of(views[i])));
}

/// Whether a sequence of span entries is ordered newest first.
pub open spec fn entries_newest_first(es: Seq<SpanEntry>) -> bool {
    forall|i: int, j: int| 0 <= i < j < es.len() ==> es[i].last_modified >= es[j].last_modified
}

/// Trait defining storage operations for the engine: the abstract
/// storage port. An implementation's state is modeled as the
/// chronological log of (key, bytes) writes it has accepted, under its
/// configured key prefix. Implementations should handle data
/// persistence and retrieval; none may promise that a write succeeds,
/// only what the log looks like on each outcome.
pub trait StorageWriter: Sized {
    /// The chronological log of writes this port has accepted.
    spec fn contents(&self) -> Seq<(Seq<char>, Seq<u8>)>;

    /// The configured key prefix all writes land under.
    spec fn key_prefix(&self) -> Seq<char>;

    /// Writes a single data entry with the given key, placed under the
    /// prefix: on success the log grows by exactly that entry, on
    /// failure it is unchanged.
    fn write(&mut self, key: &str, data: &[u8]) -> (r: Result<(), StorageError>)
        ensures
            final(self).key_prefix() == old(self).key_prefix(),
            r is Ok ==> final(self).contents() == old(self).contents().push(
                (full_key(old(self).key_prefix(), key@), data@),
            ),
            r is Err ==> final(self).contents() == old(self).contents(),
    ;

    /// Writes multiple data entries in batch: sequential application of
    /// `write`, not atomic across entries, so a failure may leave a
    /// proper prefix of the batch in the log.
    fn write_batch(&mut self, entries: Vec<(String, Vec<u8>)>) -> (r: Result<(), StorageError>)
        ensures
            final(self).key_prefix() == old(self).key_prefix(),
            r is Ok ==> final(self).contents() == old(self).contents() + batch_entries(
                old(self).key_prefix(),
                entries@,
            ),
            r is Err ==> exists|k: int|
                0 <= k < entries@.len() && final(self).contents() == old(self).contents()
                    + #[trigger] batch_entries(old(self).key_prefix(), entries@).take(k),
    ;

    /// Ensures all pending writes are persisted; a durability barrier
    /// that changes nothing in the log.
    fn flush(&mut self) -> (r: Result<(), StorageError>)
        ensures
            final(self).key_prefix() == old(self).key_prefix(),
            final(self).contents() == old(self).contents(),
    ;

    /// Writes a collection of spans to storage, each serialized to its
    /// record and keyed by `{prefix}/{trace_id}/{span_id}.json`: on
    /// success the log grows by exactly the spans' records in order; a
    /// failure may leave a proper prefix of them.
    fn write_spans(&mut self, spans: Vec<SpanData>) -> (r: Result<(), StorageError>)
        ensures
            final(self).key_prefix() == old(self).key_prefix(),
            r is Ok ==> final(self).contents() == old(self).contents() + span_records(
                old(self).key_prefix(),
                span_views(spans@),
            ),
            r is Err ==> exists|k: int|
                0 <= k < spans@.len() && final(self).contents() == old(self).contents()
                    + #[trigger] span_records(old(self).key_prefix(), span_views(spans@)).take(k),
    ;

    /// Lists stored span entries, newest first, up to the given cap; on
    /// success every listed key is one the log holds, and no key is
    /// listed twice — one entry per stored object, however many writes
    /// it took.
    fn list(&self, limit: usize) -> (r: Result<Vec<SpanEntry>, StorageError>)
        ensures
            r matches Ok(es) ==> es@.len() <= limit && entries_newest_first(es@) && (forall|i: int|
                0 <= i < es@.len() ==> log_has_key(self.contents(), (#[trigger] es@[i]).key@)) && (
            forall|i: int, j: int|
                0 <= i < j < es@.len() ==> (#[trigger] es@[i]).key@ != (#[trigger] es@[j]).key@),
    ;

    /// Reads a stored span by its key: on success the returned span is
    /// the parse of the newest record the log holds under that key —
    /// the latest write under a key wins.
    fn read(&self, key: &str) -> (r: Result<StoredSpan, StorageError>)
        ensures
            r matches Ok(s) ==> reads_latest(self.contents(), key@, s@),
    ;
}

/// Compares two pieces of text; equal bytes mean equal text, because
/// UTF-8 encoding is injective.
pub fn str_eq(a: &str, b: &str) -> (r: bool)
    ensures
        r == (a@ == b@),
{
    let ab = a.as_bytes();
    let bb = b.as_bytes();
    if ab.len() != bb.len() {
        proof {
            encode_utf8_decode_utf8(a@);
            encode_utf8_decode_utf8(b@);
        }
        return false;
    }
    let mut i: usize = 0;
    while i < ab.len()
        invariant
            0 <= i <= ab@.len(),
            ab@.len() == bb@.len(),
            ab@ == a.spec_bytes(),
            bb@ == b.spec_bytes(),
            forall|t: int| 0 <= t < i ==> ab@[t] == bb@[t],
        decreases ab@.len() - i,
    {
        if ab[i] != bb[i] {
            proof {
                encode_utf8_decode_utf8(a@);
                encode_utf8_decode_utf8(b@);
                assert(a.spec_bytes() != b.spec_bytes());
            }
            return false;
        }
        i = i + 1;
    }
    proof {
        assert(a.spec_bytes() =~= b.spec_bytes());
        encode_utf8_decode_utf8(a@);
        encode_utf8_decode_utf8(b@);
        assert(vstd::utf8::decode_utf8(encode_utf8(a@)) == vstd::utf8::decode_utf8(
            encode_utf8(b@),
        ));
    }
    true
}

/// The durable form of an internal span, as an executable value.
pub fn to_stored_span(d: &SpanData) -> (r: StoredSpan)
    ensures
        r@ == stored_span_of(d@),
{
    StoredSpan {
        trace_id: d.span_context.trace_id.clone(),
        span_id: d.span_context.span_id.clone(),
        name: d.name.clone(),
        kind: d.span_kind.label(),
        start_time: d.start_time_unix_nano,
        end_time: d.end_time_unix_nano,
        status: d.status.label(),
    }
}

/// The relative key of one stored span, as `span_key` states.
pub fn span_key_of(s: &StoredSpan) -> (r: String)
    ensures
        r@ == span_key(s@),
{
    let k = s.trace_id.clone();
    let k = k.concat("/");
    let k = k.concat(s.span_id.as_str());
    let k = k.concat(".json");
    k
}

/// Orders raw span entries for the read side: newest first, capped at
/// `limit`. The entries kept are the most recent ones — every entry
/// returned is at least as recent as every entry left out.
pub fn select_recent(entries: Vec<SpanEntry>, limit: usize) -> (r: Vec<SpanEntry>)
    ensures
        entries_newest_first(r@),
        r@.len() == if limit <= entries@.len() {
            limit as int
        } else {
            entries@.len() as int
        },
        r@.to_multiset().subset_of(entries@.to_multiset()),
        forall|i: int, j: int|
            0 <= i < r@.len() && 0 <= j < entries@.len() && !r@.to_multiset().contains(
                #[trigger] entries@[j],
            ) ==> (#[trigger] r@[i]).last_modified >= entries@[j].last_modified,
{
    broadcast use vstd::seq_lib::group_to_multiset_ensures;

    let ghost e0 = entries@;
    let mut rest = entries;
    let mut out: Vec<SpanEntry> = Vec::new();
    while out.len() < limit && rest.len() > 0
        invariant
            out@.len() + rest@.len() == e0.len(),
            out@.len() <= limit,
            out@.to_multiset().add(rest@.to_multiset()) == e0.to_multiset(),
            entries_newest_first(out@),
            forall|i: int, j: int|
                0 <= i < out@.len() && 0 <= j < rest@.len() ==> (#[trigger] out@[i]).last_modified
                    >= (#[trigger] rest@[j]).last_modified,
        decreases rest@.len(),
    {
        let mut best: usize = 0;
        let mut k: usize = 1;
        while k < rest.len()
            invariant
                0 <= best < rest@.len(),
                1 <= k <= rest@.len(),
                forall|t: int|
                    0 <= t < k ==> rest@[best as int].last_modified >= (#[trigger] rest@[t]).last_modified,
            decreases rest@.len() - k,
        {
            if rest[k].last_modified > rest[best].last_modified {
                best = k;
            }
            k = k + 1;
        }
        let ghost rest_before = rest@;
        let ghost out_before = out@;
        let ghost item = rest@[best as int];
        let picked = rest.remove(best);
        out.push(picked);
        proof {
            rest_before.to_multiset_ensures();
            out_before.to_multiset_ensures();
            assert(rest@.to_multiset() =~= rest_before.to_multiset().remove(item));
            assert(out@.to_multiset() =~= out_before.to_multiset().insert(item));
            assert(rest_before.contains(rest_before[best as int]));
            assert(rest_before.to_multiset().count(item) > 0);
            assert(out@.to_multiset().add(rest@.to_multiset()) =~= e0.to_multiset());
            rest_before.remove_ensures(best as int);
            assert(forall|j: int|
                0 <= j < rest@.len() ==> rest_before.contains(#[trigger] rest@[j]));
            assert forall|i: int, j: int|
                0 <= i < out@.len() && 0 <= j < rest@.len() implies (
            #[trigger] out@[i]).last_modified >= (#[trigger] rest@[j]).last_modified by {
                let t = choose|t: int| 0 <= t < rest_before.len() && rest_before[t] == rest@[j];
                assert(item.last_modified >= rest_before[t].last_modified);
            }
            assert(entries_newest_first(out@));
        }
    }
    proof {
        assert forall|i: int, j: int|
            0 <= i < out@.len() && 0 <= j < e0.len() && !out@.to_multiset().contains(
                #[trigger] e0[j],
            ) implies (#[trigger] out@[i]).last_modified >= e0[j].last_modified by {
            // An input entry missing from the output is still in the
            // remainder, and everything kept outranks the remainder.
            assert(e0.to_multiset().contains(e0[j]));
            assert(rest@.to_multiset().contains(e0[j]));
            let t = choose|t: int| 0 <= t < rest@.len() && rest@[t] == e0[j];
            assert(out@[i].last_modified >= rest@[t].last_modified);
        }
    }
    out
}

/// The characters of a piece of text, in order.
pub fn string_to_chars(s: &str) -> (r: Vec<char>)
    ensures
        r@ == s@,
{
    let mut out: Vec<char> = Vec::new();
    for c in it: s.chars()
        invariant
            out@ == it.seq().take(it.index() as int),
    {
        out.push(c);
        proof {
            assert(it.seq().take(it.index() as int + 1) =~= it.seq().take(it.index() as int).push(
                it.seq()[it.index() as int],
            ));
        }
    }
    proof {
        assert(out@ =~= s@);
    }
    out
}

/// Relies on String's FromIterator: collecting characters yields the
/// text made of exactly those characters, in order.
#[verifier::external_body]
fn chars_to_string(v: Vec<char>) -> (r: String)
    ensures
        r@ == v@,
{
    String::from_iter(v)
}

/// Joins a key to the configured prefix, as `full_key` states: the
/// empty prefix leaves the key alone; otherwise trailing separators are
/// stripped from the prefix before joining with a single separator.
pub fn make_full_key(prefix: &str, key: &str) -> (r: String)
    ensures
        r@ == full_key(prefix@, key@),
{
    if prefix.is_empty() {
        return key.to_owned();
    }
    let mut chars = string_to_chars(prefix);
    while chars.len() > 0 && chars[chars.len() - 1] == '/'
        invariant
            strip_trailing_slashes(chars@) == strip_trailing_slashes(prefix@),
        decreases chars@.len(),
    {
        let ghost before = chars@;
        chars.pop();
        proof {
            assert(chars@ =~= before.drop_last());
        }
    }
    proof {
        assert(strip_trailing_slashes(chars@) == chars@);
    }
    let head = chars_to_string(chars);
    let joined = head.concat("/");
    let full = joined.concat(key);
    full
}

} // verus!
