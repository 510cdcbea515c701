//! The wire-format trace messages accepted at the ingestion boundary:
//! one export request carries resource groupings, each carrying scope
//! groupings, each carrying spans. Identifier fields are raw bytes;
//! timestamps are nanoseconds since the epoch.
use vstd::prelude::*;

verus! {

/// One span as it arrives on the wire.
#[derive(Debug, Clone, PartialEq)]
pub struct Span {
    /// Trace identifier as raw bytes; must be 16 bytes to be valid.
    pub trace_id: Vec<u8>,
    /// Span identifier as raw bytes; must be 8 bytes to be valid.
    pub span_id: Vec<u8>,
    /// Parent span identifier as raw bytes; empty means "no parent".
    pub parent_span_id: Vec<u8>,
    /// Name of the operation this span represents.
    pub name: String,
    /// Start time in nanoseconds since the epoch.
    pub start_time_unix_nano: u64,
    /// End time in nanoseconds since the epoch.
    pub end_time_unix_nano: u64,
}

/// The spans produced by one instrumentation scope.
#[derive(Debug, Clone, PartialEq)]
pub struct ScopeSpans {
    pub spans: Vec<Span>,
}

/// The scope groupings produced by one resource.
#[derive(Debug, Clone, PartialEq)]
pub struct ResourceSpans {
    pub scope_spans: Vec<ScopeSpans>,
}

/// One export call's payload: a batch of resource groupings.
#[derive(Debug, Clone, PartialEq)]
pub struct ExportTraceServiceRequest {
    pub resource_spans: Vec<ResourceSpans>,
}

/// The immediate acknowledgement returned for an export call.
#[derive(Debug, Clone, PartialEq)]
pub struct ExportTraceServiceResponse {}

/// The spans of one scope grouping, in order.
pub open spec fn spans_of_scope(ss: ScopeSpans) -> Seq<Span> {
    ss.spans@
}

/// The spans of one resource grouping: its scopes' spans, flattened in
/// order.
pub open spec fn spans_of_resource(rs: ResourceSpans) -> Seq<Span> {
    rs.scope_spans@.flat_map(|ss: ScopeSpans| spans_of_scope(ss))
}

/// All spans of one export request: the nesting flattened into a single
/// sequence, in arrival order.
pub open spec fn spans_of_request(req: ExportTraceServiceRequest) -> Seq<Span> {
    req.resource_spans@.flat_map(|rs: ResourceSpans| spans_of_resource(rs))
}

} // verus!
