//! Conversion from wire-format spans to the internal representation:
//! a pure transformation. Identifier bytes must have the fixed
//! identifier widths and are rendered as lowercase hex text; an empty
//! parent identifier maps to the explicit no-parent sentinel; a
//! malformed identifier is a conversion failure, never a silent
//! default.
use vstd::prelude::*;

use vstd::seq_lib::lemma_flatten_concat;

use crate::error::ProcessingError;
use crate::hexstr::{hex_encode, hex_seq, lemma_hex_seq_is_hex};
use crate::span::{
    span_well_formed, EvictedQueue, SpanContext, SpanData, SpanDataView, SpanKind, SpanStatus,
    EVICTION_LIMIT, SPAN_ID_BYTES, TRACE_ID_BYTES,
};
use crate::wire;
use crate::wire::{
    spans_of_request, spans_of_resource, spans_of_scope, ExportTraceServiceRequest,
};

verus! {

/// Whether the identifier bytes of a wire span have the widths the
/// conversion demands; the parent identifier may also be absent.
pub open spec fn span_ids_valid(s: wire::Span) -> bool {
    &&& (s.parent_span_id@.len() == 0 || s.parent_span_id@.len() == SPAN_ID_BYTES as int)
    &&& s.trace_id@.len() == TRACE_ID_BYTES as int
    &&& s.span_id@.len() == SPAN_ID_BYTES as int
}

/// What the conversion of one wire span yields: `None` exactly on
/// malformed identifiers, otherwise the internal span, with identifiers
/// rendered as lowercase hex, an empty parent mapped to the no-parent
/// sentinel, and empty bounded collections.
pub open spec fn convert_span_spec(s: wire::Span) -> Option<SpanDataView> {
    if !span_ids_valid(s) {
        None
    } else {
        Some(
            SpanDataView {
                trace_id: hex_seq(s.trace_id@),
                span_id: hex_seq(s.span_id@),
                parent_span_id: if s.parent_span_id@.len() == 0 {
                    None
                } else {
                    Some(hex_seq(s.parent_span_id@))
                },
                span_kind: SpanKind::Client,
                name: s.name@,
                start_time_unix_nano: s.start_time_unix_nano,
                end_time_unix_nano: s.end_time_unix_nano,
                status: SpanStatus::Okay,
                attributes: Seq::empty(),
                events: Seq::empty(),
                links: Seq::empty(),
            },
        )
    }
}

/// The failure detail reported for a malformed wire span: the first
/// identifier found malformed, checked parent first, then trace, then
/// span.
pub open spec fn convert_error_text(s: wire::Span) -> Seq<char> {
    if s.parent_span_id@.len() != 0 && s.parent_span_id@.len() != SPAN_ID_BYTES as int {
        "invalid parent span identifier"@
    } else if s.trace_id@.len() != TRACE_ID_BYTES as int {
        "invalid trace identifier"@
    } else {
        "invalid span identifier"@
    }
}

/// A converted span's collections are empty at birth and bounded at the
/// eviction limit.
pub open spec fn converted_span_bounded(d: SpanData) -> bool {
    &&& d.attributes.bounded()
    &&& d.events.bounded()
    &&& d.links.bounded()
    &&& d.attributes.capacity() == EVICTION_LIMIT
    &&& d.events.capacity() == EVICTION_LIMIT
    &&& d.links.capacity() == EVICTION_LIMIT
}

/// Whether every span of the sequence converts.
pub open spec fn all_spans_valid(spans: Seq<wire::Span>) -> bool {
    forall|i: int| 0 <= i < spans.len() ==> span_ids_valid(#[trigger] spans[i])
}

/// The conversions of a sequence of valid wire spans, in order.
pub open spec fn converted_spans(spans: Seq<wire::Span>) -> Seq<SpanDataView> {
    spans.map_values(|s: wire::Span| convert_span_spec(s)->0)
}

/// A conversion failure that names the first malformed span of the
/// sequence: every span before it is well formed.
pub open spec fn names_first_invalid(spans: Seq<wire::Span>, e: ProcessingError) -> bool {
    &&& e is ValidationError
    &&& exists|j: int|
        {
            &&& 0 <= j < spans.len()
            &&& !span_ids_valid(#[trigger] spans[j])
            &&& (forall|k: int| 0 <= k < j ==> span_ids_valid(#[trigger] spans[k]))
            &&& e->ValidationError_0@ == convert_error_text(spans[j])
        }
}

/// A successfully converted chunk: its views are exactly the
/// conversions, in order, all well formed, with bounded collections.
pub open spec fn converted_chunk(spans: Seq<wire::Span>, chunk: Seq<SpanData>) -> bool {
    &&& chunk.map_values(|d: SpanData| d@) == converted_spans(spans)
    &&& forall|t: int| 0 <= t < chunk.len() ==> converted_span_bounded(#[trigger] chunk[t])
    &&& forall|t: int| 0 <= t < chunk.len() ==> span_well_formed(#[trigger] chunk[t]@)
}

/// Converts a wire span into an internal span. Conversion is a pure
/// function of the argument: it succeeds exactly when the identifier
/// widths are right, and the result is pinned by `convert_span_spec`.
pub fn convert_span(s: &wire::Span) -> (r: Result<SpanData, ProcessingError>)
    ensures
        convert_span_spec(*s) matches Some(v) ==> (r matches Ok(d) && d@ == v),
        convert_span_spec(*s) is None ==> (r matches Err(e) && (e matches
        ProcessingError::ValidationError(m) && m@ == convert_error_text(*s))),
        r matches Ok(d) ==> convert_span_spec(*s) == Some(d@) && converted_span_bounded(d)
            && span_well_formed(d@),
{
    let parent_span_id: Option<String> = if s.parent_span_id.len() != 0 {
        if s.parent_span_id.len() != SPAN_ID_BYTES {
            return Err(
                ProcessingError::ValidationError("invalid parent span identifier".to_owned()),
            );
        }
        Some(hex_encode(s.parent_span_id.as_slice()))
    } else {
        None
    };

    if s.trace_id.len() != TRACE_ID_BYTES {
        return Err(ProcessingError::ValidationError("invalid trace identifier".to_owned()));
    }
    if s.span_id.len() != SPAN_ID_BYTES {
        return Err(ProcessingError::ValidationError("invalid span identifier".to_owned()));
    }

    let trace_id = hex_encode(s.trace_id.as_slice());
    let span_id = hex_encode(s.span_id.as_slice());

    let d = SpanData {
        span_context: SpanContext { trace_id, span_id },
        parent_span_id,
        span_kind: SpanKind::Client,
        name: s.name.clone(),
        start_time_unix_nano: s.start_time_unix_nano,
        end_time_unix_nano: s.end_time_unix_nano,
        status: SpanStatus::Okay,
        attributes: EvictedQueue::new(EVICTION_LIMIT),
        events: EvictedQueue::new(EVICTION_LIMIT),
        links: EvictedQueue::new(EVICTION_LIMIT),
    };
    proof {
        lemma_hex_seq_is_hex(s.trace_id@);
        lemma_hex_seq_is_hex(s.span_id@);
        lemma_hex_seq_is_hex(s.parent_span_id@);
        assert(d@.attributes =~= Seq::<(Seq<char>, Seq<char>)>::empty());
        assert(d@.events =~= Seq::<(Seq<char>, u64)>::empty());
        assert(d@.links =~= Seq::<(Seq<char>, Seq<char>)>::empty());
        assert(d@ =~= convert_span_spec(*s)->0);
    }
    Ok(d)
}

/// Conversion law: the conversion is a pure function with no hidden
/// state, so converting the same wire span twice yields identical
/// internal span values.
pub proof fn lemma_conversion_deterministic(a: wire::Span, b: wire::Span)
    requires
        a == b,
    ensures
        convert_span_spec(a) == convert_span_spec(b),
{
}

/// Splitting a flattened mapping at one element: the whole is the
/// mapped prefix, the element's image, and the mapped remainder.
proof fn lemma_flat_map_decompose<A, B>(s: Seq<A>, f: spec_fn(A) -> Seq<B>, i: int)
    requires
        0 <= i < s.len(),
    ensures
        s.flat_map(f) == s.take(i).flat_map(f) + f(s[i]) + s.skip(i + 1).flat_map(f),
{
    let parts = s.take(i) + seq![s[i]] + s.skip(i + 1);
    assert(parts =~= s);
    assert(parts.map_values(f) =~= s.take(i).map_values(f) + seq![s[i]].map_values(f) + s.skip(
        i + 1,
    ).map_values(f));
    lemma_flatten_concat(
        s.take(i).map_values(f) + seq![s[i]].map_values(f),
        s.skip(i + 1).map_values(f),
    );
    lemma_flatten_concat(s.take(i).map_values(f), seq![s[i]].map_values(f));
    seq![s[i]].map_values(f).lemma_flatten_one_element();
    assert(seq![s[i]].map_values(f).first() == f(s[i]));
    assert(s.flat_map(f) == s.take(i).flat_map(f) + f(s[i]) + s.skip(i + 1).flat_map(f));
}

/// Converts the spans of one scope grouping, in order; fails on the
/// first malformed span.
fn convert_scope_spans(ss: &wire::ScopeSpans) -> (r: Result<Vec<SpanData>, ProcessingError>)
    ensures
        r matches Ok(v) ==> all_spans_valid(spans_of_scope(*ss)) && converted_chunk(
            spans_of_scope(*ss),
            v@,
        ),
        r matches Err(e) ==> !all_spans_valid(spans_of_scope(*ss)) && names_first_invalid(
            spans_of_scope(*ss),
            e,
        ),
{
    let mut out: Vec<SpanData> = Vec::new();
    proof {
        assert(out@.map_values(|d: SpanData| d@) =~= converted_spans(ss.spans@.take(0)));
    }
    let mut k: usize = 0;
    while k < ss.spans.len()
        invariant
            0 <= k <= ss.spans@.len(),
            all_spans_valid(ss.spans@.take(k as int)),
            converted_chunk(ss.spans@.take(k as int), out@),
        decreases ss.spans@.len() - k,
    {
        match convert_span(&ss.spans[k]) {
            Ok(d) => {
                let ghost dv = d@;
                let ghost out_snap = out@;
                out.push(d);
                proof {
                    assert(ss.spans@.take(k as int + 1) =~= ss.spans@.take(k as int).push(
                        ss.spans@[k as int],
                    ));
                    assert(dv == convert_span_spec(ss.spans@[k as int])->0);
                    let mapped = out@.map_values(|d: SpanData| d@);
                    let target = converted_spans(ss.spans@.take(k as int + 1));
                    assert(out_snap.map_values(|d: SpanData| d@).len() == out_snap.len());
                    assert(converted_spans(ss.spans@.take(k as int)).len() == k as int);
                    assert(mapped.len() == k + 1);
                    assert(target.len() == k + 1);
                    assert forall|t: int| 0 <= t < mapped.len() implies #[trigger] mapped[t]
                        == target[t] by {
                        if t < out_snap.len() {
                            assert(out@[t] == out_snap[t]);
                            assert(out_snap.map_values(|d: SpanData| d@)[t] == converted_spans(
                                ss.spans@.take(k as int),
                            )[t]);
                            assert(ss.spans@.take(k as int + 1)[t] == ss.spans@.take(k as int)[t]);
                        } else {
                            assert(out@[t]@ == dv);
                            assert(ss.spans@.take(k as int + 1)[t] == ss.spans@[k as int]);
                        }
                    }
                    assert(mapped =~= target);
                }
            },
            Err(e) => {
                proof {
                    let j = k as int;
                    assert(!span_ids_valid(spans_of_scope(*ss)[j]));
                    assert forall|t: int| 0 <= t < j implies span_ids_valid(
                        #[trigger] spans_of_scope(*ss)[t],
                    ) by {
                        assert(ss.spans@.take(j)[t] == ss.spans@[t]);
                    }
                }
                return Err(e);
            },
        }
        k = k + 1;
    }
    proof {
        assert(ss.spans@.take(ss.spans@.len() as int) =~= ss.spans@);
    }
    Ok(out)
}

/// Converts the spans of one resource grouping: its scopes' spans,
/// flattened in order; fails on the first malformed span.
fn convert_resource_spans(rs: &wire::ResourceSpans) -> (r: Result<Vec<SpanData>, ProcessingError>)
    ensures
        r matches Ok(v) ==> all_spans_valid(spans_of_resource(*rs)) && converted_chunk(
            spans_of_resource(*rs),
            v@,
        ),
        r matches Err(e) ==> !all_spans_valid(spans_of_resource(*rs)) && names_first_invalid(
            spans_of_resource(*rs),
            e,
        ),
{
    let ghost f = |ss: wire::ScopeSpans| spans_of_scope(ss);
    let mut out: Vec<SpanData> = Vec::new();
    proof {
        assert(rs.scope_spans@.take(0).map_values(f) =~= Seq::<Seq<wire::Span>>::empty());
        assert(rs.scope_spans@.take(0).flat_map(f) =~= Seq::<wire::Span>::empty());
        assert(out@.map_values(|d: SpanData| d@) =~= converted_spans(
            rs.scope_spans@.take(0).flat_map(f),
        ));
    }
    let mut j: usize = 0;
    while j < rs.scope_spans.len()
        invariant
            0 <= j <= rs.scope_spans@.len(),
            f == (|ss: wire::ScopeSpans| spans_of_scope(ss)),
            all_spans_valid(rs.scope_spans@.take(j as int).flat_map(f)),
            converted_chunk(rs.scope_spans@.take(j as int).flat_map(f), out@),
        decreases rs.scope_spans@.len() - j,
    {
        let ghost done = rs.scope_spans@.take(j as int).flat_map(f);
        match convert_scope_spans(&rs.scope_spans[j]) {
            Ok(mut chunk) => {
                proof {
                    rs.scope_spans@.lemma_flat_map_take_append(f, j as int);
                }
                let ghost chunk_snap = chunk@;
                let ghost out_snap = out@;
                out.append(&mut chunk);
                proof {
                    let next = rs.scope_spans@.take(j as int + 1).flat_map(f);
                    assert(next == done + spans_of_scope(rs.scope_spans@[j as int]));
                    assert(out@.map_values(|d: SpanData| d@) =~= converted_spans(next)) by {
                        assert(converted_spans(next) =~= converted_spans(done) + converted_spans(
                            spans_of_scope(rs.scope_spans@[j as int]),
                        ));
                        assert(out@ == out_snap + chunk_snap);
                        assert(out@.map_values(|d: SpanData| d@) =~= out_snap.map_values(
                            |d: SpanData| d@,
                        ) + chunk_snap.map_values(|d: SpanData| d@));
                    }
                    assert(all_spans_valid(next)) by {
                        assert(forall|t: int| 0 <= t < next.len() ==> next[t] == if t < done.len() {
                            done[t]
                        } else {
                            spans_of_scope(rs.scope_spans@[j as int])[t - done.len()]
                        });
                    }
                }
            },
            Err(e) => {
                proof {
                    lemma_flat_map_decompose(rs.scope_spans@, f, j as int);
                    let whole = spans_of_resource(*rs);
                    let sj = spans_of_scope(rs.scope_spans@[j as int]);
                    let jl = choose|jl: int|
                        {
                            &&& 0 <= jl < sj.len()
                            &&& !span_ids_valid(#[trigger] sj[jl])
                            &&& (forall|k: int| 0 <= k < jl ==> span_ids_valid(#[trigger] sj[k]))
                            &&& e->ValidationError_0@ == convert_error_text(sj[jl])
                        };
                    let g = done.len() + jl;
                    assert(whole[g] == sj[jl]);
                    assert forall|t: int| 0 <= t < g implies span_ids_valid(
                        #[trigger] whole[t],
                    ) by {
                        if t < done.len() {
                            assert(whole[t] == done[t]);
                        } else {
                            assert(whole[t] == sj[t - done.len()]);
                        }
                    }
                }
                return Err(e);
            },
        }
        j = j + 1;
    }
    proof {
        assert(rs.scope_spans@.take(rs.scope_spans@.len() as int) =~= rs.scope_spans@);
    }
    Ok(out)
}

/// Converts a whole export request into internal spans, flattening the
/// resource/scope nesting into a flat sequence in arrival order. The
/// conversion succeeds exactly when every span in the request is valid;
/// a failure names a malformed span's identifier.
pub fn convert_request_to_spans(request: &ExportTraceServiceRequest) -> (r: Result<
    Vec<SpanData>,
    ProcessingError,
>)
    ensures
        r matches Ok(v) ==> all_spans_valid(spans_of_request(*request)) && converted_chunk(
            spans_of_request(*request),
            v@,
        ),
        r matches Err(e) ==> !all_spans_valid(spans_of_request(*request)) && names_first_invalid(
            spans_of_request(*request),
            e,
        ),
{
    let ghost f = |rs: wire::ResourceSpans| spans_of_resource(rs);
    let mut out: Vec<SpanData> = Vec::new();
    proof {
        assert(request.resource_spans@.take(0).map_values(f) =~= Seq::<Seq<wire::Span>>::empty());
        assert(request.resource_spans@.take(0).flat_map(f) =~= Seq::<wire::Span>::empty());
        assert(out@.map_values(|d: SpanData| d@) =~= converted_spans(
            request.resource_spans@.take(0).flat_map(f),
        ));
    }
    let mut i: usize = 0;
    while i < request.resource_spans.len()
        invariant
            0 <= i <= request.resource_spans@.len(),
            f == (|rs: wire::ResourceSpans| spans_of_resource(rs)),
            all_spans_valid(request.resource_spans@.take(i as int).flat_map(f)),
            converted_chunk(request.resource_spans@.take(i as int).flat_map(f), out@),
        decreases request.resource_spans@.len() - i,
    {
        let ghost done = request.resource_spans@.take(i as int).flat_map(f);
        match convert_resource_spans(&request.resource_spans[i]) {
            Ok(mut chunk) => {
                proof {
                    request.resource_spans@.lemma_flat_map_take_append(f, i as int);
                }
                let ghost chunk_snap = chunk@;
                let ghost out_snap = out@;
                out.append(&mut chunk);
                proof {
                    let next = request.resource_spans@.take(i as int + 1).flat_map(f);
                    assert(next == done + spans_of_resource(request.resource_spans@[i as int]));
                    assert(out@.map_values(|d: SpanData| d@) =~= converted_spans(next)) by {
                        assert(converted_spans(next) =~= converted_spans(done) + converted_spans(
                            spans_of_resource(request.resource_spans@[i as int]),
                        ));
                        assert(out@ == out_snap + chunk_snap);
                        assert(out@.map_values(|d: SpanData| d@) =~= out_snap.map_values(
                            |d: SpanData| d@,
                        ) + chunk_snap.map_values(|d: SpanData| d@));
                    }
                    assert(all_spans_valid(next)) by {
                        assert(forall|t: int| 0 <= t < next.len() ==> next[t] == if t < done.len() {
                            done[t]
                        } else {
                            spans_of_resource(request.resource_spans@[i as int])[t - done.len()]
                        });
                    }
                }
            },
            Err(e) => {
                proof {
                    lemma_flat_map_decompose(request.resource_spans@, f, i as int);
                    let whole = spans_of_request(*request);
                    let si = spans_of_resource(request.resource_spans@[i as int]);
                    let jl = choose|jl: int|
                        {
                            &&& 0 <= jl < si.len()
                            &&& !span_ids_valid(#[trigger] si[jl])
                            &&& (forall|k: int| 0 <= k < jl ==> span_ids_valid(#[trigger] si[k]))
                            &&& e->ValidationError_0@ == convert_error_text(si[jl])
                        };
                    let g = done.len() + jl;
                    assert(whole[g] == si[jl]);
                    assert forall|t: int| 0 <= t < g implies span_ids_valid(
                        #[trigger] whole[t],
                    ) by {
                        if t < done.len() {
                            assert(whole[t] == done[t]);
                        } else {
                            assert(whole[t] == si[t - done.len()]);
                        }
                    }
                }
                return Err(e);
            },
        }
        i = i + 1;
    }
    proof {
        assert(request.resource_spans@.take(request.resource_spans@.len() as int)
            =~= request.resource_spans@);
    }
    Ok(out)
}

} // verus!
