//! The internal span representation: identifier text in lowercase hex,
//! timestamps in nanoseconds since the epoch, and bounded collections
//! for attributes, events and links, capped with oldest-first eviction
//! to bound memory under pathological inputs.
use vstd::prelude::*;

use crate::hexstr::is_hex_text;

verus! {

/// The fixed bound on the attribute, event and link collections of one
/// span; when it is exceeded the oldest entry is evicted first.
pub const EVICTION_LIMIT: usize = 128;

/// Length in bytes of a wire trace identifier.
pub const TRACE_ID_BYTES: usize = 16;

/// Length in bytes of a wire span identifier.
pub const SPAN_ID_BYTES: usize = 8;

/// A bounded collection with a fixed capacity: pushing onto a full
/// queue evicts the oldest entry first, so the length never exceeds
/// the capacity.
#[derive(Debug, Clone, PartialEq)]
pub struct EvictedQueue<T> {
    items: Vec<T>,
    cap: usize,
}

impl<T> View for EvictedQueue<T> {
    type V = Seq<T>;

    closed spec fn view(&self) -> Seq<T> {
        self.items@
    }
}

impl<T> EvictedQueue<T> {
    /// The fixed capacity this queue was created with.
    pub closed spec fn capacity(&self) -> usize {
        self.cap
    }

    /// A queue in bounds: its capacity is positive and its length never
    /// exceeds it. Established by `new` and preserved by `push`.
    pub open spec fn bounded(self) -> bool {
        1 <= self.capacity() && self@.len() <= self.capacity()
    }

    /// Creates an empty queue with the given capacity.
    pub fn new(cap: usize) -> (r: Self)
        requires
            cap >= 1,
        ensures
            r@ == Seq::<T>::empty(),
            r.capacity() == cap,
            r.bounded(),
    {
        Self { items: Vec::new(), cap }
    }

    /// Appends an entry; if the queue is at capacity, the oldest entry
    /// is evicted first.
    pub fn push(&mut self, t: T)
        requires
            old(self).bounded(),
        ensures
            final(self).capacity() == old(self).capacity(),
            final(self).bounded(),
            final(self)@ == if old(self)@.len() < old(self).capacity() {
                old(self)@.push(t)
            } else {
                old(self)@.drop_first().push(t)
            },
    {
        if self.items.len() == self.cap {
            self.items.remove(0);
            assert(self.items@ =~= old(self)@.drop_first());
        }
        self.items.push(t);
    }

    /// The number of entries currently held.
    pub fn len(&self) -> (r: usize)
        ensures
            r == self@.len(),
    {
        self.items.len()
    }

    /// Read access to the entries, oldest first.
    pub fn entries(&self) -> (r: &Vec<T>)
        ensures
            r@ == self@,
    {
        &self.items
    }
}

/// One attribute of a span: a key-value pair of text.
#[derive(Debug, Clone, PartialEq)]
pub struct KeyValue {
    pub key: String,
    pub value: String,
}

impl View for KeyValue {
    type V = (Seq<char>, Seq<char>);

    open spec fn view(&self) -> (Seq<char>, Seq<char>) {
        (self.key@, self.value@)
    }
}

/// One timed event recorded on a span.
#[derive(Debug, Clone, PartialEq)]
pub struct SpanEvent {
    pub name: String,
    pub time_unix_nano: u64,
}

impl View for SpanEvent {
    type V = (Seq<char>, u64);

    open spec fn view(&self) -> (Seq<char>, u64) {
        (self.name@, self.time_unix_nano)
    }
}

/// One link from a span to another span, by hex identifiers.
#[derive(Debug, Clone, PartialEq)]
pub struct SpanLink {
    pub trace_id: String,
    pub span_id: String,
}

impl View for SpanLink {
    type V = (Seq<char>, Seq<char>);

    open spec fn view(&self) -> (Seq<char>, Seq<char>) {
        (self.trace_id@, self.span_id@)
    }
}

/// The type of operation a span represents.
#[derive(Debug, Clone, Copy, PartialEq, Eq, Structural)]
pub enum SpanKind {
    Internal,
    Client,
    Server,
    Producer,
    Consumer,
}

/// The outcome recorded on a span.
#[derive(Debug, Clone, Copy, PartialEq, Eq, Structural)]
pub enum SpanStatus {
    Unset,
    Okay,
    Error,
}

/// The label under which a span kind is persisted.
pub open spec fn kind_label(k: SpanKind) -> Seq<char> {
    match k {
        SpanKind::Internal => "Internal"@,
        SpanKind::Client => "Client"@,
        SpanKind::Server => "Server"@,
        SpanKind::Producer => "Producer"@,
        SpanKind::Consumer => "Consumer"@,
    }
}

/// The label under which a span status is persisted.
pub open spec fn status_label(s: SpanStatus) -> Seq<char> {
    match s {
        SpanStatus::Unset => "Unset"@,
        SpanStatus::Okay => "Ok"@,
        SpanStatus::Error => "Error"@,
    }
}

impl SpanKind {
    /// Renders the kind as its persisted label.
    pub fn label(&self) -> (r: String)
        ensures
            r@ == kind_label(*self),
    {
        match self {
            SpanKind::Internal => "Internal".to_owned(),
            SpanKind::Client => "Client".to_owned(),
            SpanKind::Server => "Server".to_owned(),
            SpanKind::Producer => "Producer".to_owned(),
            SpanKind::Consumer => "Consumer".to_owned(),
        }
    }
}

impl SpanStatus {
    /// Renders the status as its persisted label.
    pub fn label(&self) -> (r: String)
        ensures
            r@ == status_label(*self),
    {
        match self {
            SpanStatus::Unset => "Unset".to_owned(),
            SpanStatus::Okay => "Ok".to_owned(),
            SpanStatus::Error => "Error".to_owned(),
        }
    }
}

/// The identifying context of a span: trace and span identifiers in
/// lowercase hex text.
#[derive(Debug, Clone, PartialEq)]
pub struct SpanContext {
    pub trace_id: String,
    pub span_id: String,
}

/// The internal representation of one span, produced by conversion from
/// the wire form.
#[derive(Debug, Clone, PartialEq)]
pub struct SpanData {
    /// Identifying context of this span.
    pub span_context: SpanContext,
    /// Parent span identifier in hex, or `None` for a root span.
    pub parent_span_id: Option<String>,
    /// Type of operation.
    pub span_kind: SpanKind,
    /// Name of the operation.
    pub name: String,
    /// Start time in nanoseconds since the epoch.
    pub start_time_unix_nano: u64,
    /// End time in nanoseconds since the epoch.
    pub end_time_unix_nano: u64,
    /// Recorded outcome.
    pub status: SpanStatus,
    /// Attributes, bounded with oldest-first eviction.
    pub attributes: EvictedQueue<KeyValue>,
    /// Events, bounded with oldest-first eviction.
    pub events: EvictedQueue<SpanEvent>,
    /// Links, bounded with oldest-first eviction.
    pub links: EvictedQueue<SpanLink>,
}

/// The mathematical image of a span: identifier and name text as
/// character sequences, collections as sequences of their entries.
#[verifier::ext_equal]
pub struct SpanDataView {
    pub trace_id: Seq<char>,
    pub span_id: Seq<char>,
    pub parent_span_id: Option<Seq<char>>,
    pub span_kind: SpanKind,
    pub name: Seq<char>,
    pub start_time_unix_nano: u64,
    pub end_time_unix_nano: u64,
    pub status: SpanStatus,
    pub attributes: Seq<(Seq<char>, Seq<char>)>,
    pub events: Seq<(Seq<char>, u64)>,
    pub links: Seq<(Seq<char>, Seq<char>)>,
}

impl View for SpanData {
    type V = SpanDataView;

    open spec fn view(&self) -> SpanDataView {
        SpanDataView {
            trace_id: self.span_context.trace_id@,
            span_id: self.span_context.span_id@,
            parent_span_id: match self.parent_span_id {
                Some(p) => Some(p@),
                None => None,
            },
            span_kind: self.span_kind,
            name: self.name@,
            start_time_unix_nano: self.start_time_unix_nano,
            end_time_unix_nano: self.end_time_unix_nano,
            status: self.status,
            attributes: self.attributes@.map_values(|kv: KeyValue| kv@),
            events: self.events@.map_values(|e: SpanEvent| e@),
            links: self.links@.map_values(|l: SpanLink| l@),
        }
    }
}

/// A well-formed internal span: identifiers are hex text of the fixed
/// identifier widths.
pub open spec fn span_well_formed(v: SpanDataView) -> bool {
    &&& is_hex_text(v.trace_id, 2 * TRACE_ID_BYTES as int)
    &&& is_hex_text(v.span_id, 2 * SPAN_ID_BYTES as int)
    &&& match v.parent_span_id {
        Some(p) => is_hex_text(p, 2 * SPAN_ID_BYTES as int),
        None => true,
    }
}

} // verus!
