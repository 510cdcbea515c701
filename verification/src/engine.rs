//! The batching engine: the single consumer of the intake channel. It
//! accumulates inbound requests, flushes them when the batch size is
//! reached or the batch timer fires, converts each request to internal
//! spans, drives storage writes, reports every outcome to the health
//! aggregator, and drains fully on shutdown.
//!
//! The engine itself is free of timers and channels: the surrounding
//! runtime delivers each arrival and timer tick as a call, and resets
//! its timer whenever a call reports a flush.
use vstd::prelude::*;

use crate::config::ProcessingConfig;
use crate::convert::{
    all_spans_valid, convert_request_to_spans, converted_spans, names_first_invalid,
};
use crate::error::ProcessingError;
use crate::health::{failure_step, success_step, HealthCheck, HealthStatus};
use crate::storage::{span_records, span_views, StorageWriter};
use crate::wire::{spans_of_request, ExportTraceServiceRequest, ExportTraceServiceResponse};

verus! {

/// A health state with its queue-depth gauge set.
pub open spec fn with_queue(h: HealthStatus, n: u64) -> HealthStatus {
    HealthStatus { queue_size: n, ..h }
}

/// How one item moves the health counters and the storage log: a
/// malformed item is rejected without touching storage; a well-formed
/// item either lands all its span records and counts a success, or
/// counts a failure and may leave a prefix of its records.
pub open spec fn item_outcome(
    prefix: Seq<char>,
    req: ExportTraceServiceRequest,
    h0: HealthStatus,
    c0: Seq<(Seq<char>, Seq<u8>)>,
    h1: HealthStatus,
    c1: Seq<(Seq<char>, Seq<u8>)>,
    now: u64,
) -> bool {
    if all_spans_valid(spans_of_request(req)) {
        let recs = span_records(prefix, converted_spans(spans_of_request(req)));
        (h1 == success_step(h0, now) && c1 == c0 + recs) || (h1 == failure_step(h0) && exists|
            k: int,
        |
            0 <= k <= recs.len() && c1 == c0 + #[trigger] recs.take(k))
    } else {
        h1 == failure_step(h0) && c1 == c0
    }
}

/// How a whole batch moves the health counters and the storage log:
/// the items' outcomes, chained in arrival order.
pub open spec fn batch_outcome(
    prefix: Seq<char>,
    items: Seq<ExportTraceServiceRequest>,
    h0: HealthStatus,
    c0: Seq<(Seq<char>, Seq<u8>)>,
    h1: HealthStatus,
    c1: Seq<(Seq<char>, Seq<u8>)>,
    now: u64,
) -> bool
    decreases items.len(),
{
    if items.len() == 0 {
        h1 == h0 && c1 == c0
    } else {
        exists|hm: HealthStatus, cm: Seq<(Seq<char>, Seq<u8>)>|
            #[trigger] item_outcome(prefix, items[0], h0, c0, hm, cm, now) && batch_outcome(
                prefix,
                items.drop_first(),
                hm,
                cm,
                h1,
                c1,
                now,
            )
    }
}

/// Chaining one more item onto a batch outcome.
proof fn lemma_batch_outcome_snoc(
    prefix: Seq<char>,
    items: Seq<ExportTraceServiceRequest>,
    item: ExportTraceServiceRequest,
    h0: HealthStatus,
    c0: Seq<(Seq<char>, Seq<u8>)>,
    hm: HealthStatus,
    cm: Seq<(Seq<char>, Seq<u8>)>,
    h1: HealthStatus,
    c1: Seq<(Seq<char>, Seq<u8>)>,
    now: u64,
)
    requires
        batch_outcome(prefix, items, h0, c0, hm, cm, now),
        item_outcome(prefix, item, hm, cm, h1, c1, now),
    ensures
        batch_outcome(prefix, items.push(item), h0, c0, h1, c1, now),
    decreases items.len(),
{
    let snoc = items.push(item);
    if items.len() == 0 {
        assert(snoc[0] == item);
        assert(snoc.drop_first() =~= Seq::<ExportTraceServiceRequest>::empty());
        assert(item_outcome(prefix, snoc[0], h0, c0, h1, c1, now));
        assert(batch_outcome(prefix, snoc.drop_first(), h1, c1, h1, c1, now));
    } else {
        let (hm2, cm2) = choose|hm2: HealthStatus, cm2: Seq<(Seq<char>, Seq<u8>)>|
            #[trigger] item_outcome(prefix, items[0], h0, c0, hm2, cm2, now) && batch_outcome(
                prefix,
                items.drop_first(),
                hm2,
                cm2,
                hm,
                cm,
                now,
            );
        lemma_batch_outcome_snoc(
            prefix,
            items.drop_first(),
            item,
            hm2,
            cm2,
            hm,
            cm,
            h1,
            c1,
            now,
        );
        assert(snoc.drop_first() =~= items.drop_first().push(item));
        assert(snoc[0] == items[0]);
        assert(item_outcome(prefix, snoc[0], h0, c0, hm2, cm2, now));
    }
}

/// The two things that can wake the engine: an inbound message, or the
/// batch timer firing.
#[derive(Debug, Clone, Copy, PartialEq, Eq, Structural)]
pub enum EngineEvent {
    MessageArrived,
    TimerTick,
}

/// How one wakeup moves the queue depth: an arrival that fills the
/// batch flushes it, any other arrival grows the queue by one, and a
/// timer tick always leaves the queue empty.
pub open spec fn queue_len_step(len: nat, batch_size: nat, ev: EngineEvent) -> nat {
    match ev {
        EngineEvent::MessageArrived => if len + 1 >= batch_size {
            0
        } else {
            (len + 1) as nat
        },
        EngineEvent::TimerTick => 0,
    }
}

/// The queue depth after a sequence of wakeups.
pub open spec fn queue_len_after(init: nat, evs: Seq<EngineEvent>, batch_size: nat) -> nat
    decreases evs.len(),
{
    if evs.len() == 0 {
        init
    } else {
        queue_len_step(queue_len_after(init, evs.drop_last(), batch_size), batch_size, evs.last())
    }
}

/// Flush policy law: under any sequence of arrivals and timer ticks, a
/// flush happens by the time the batch fills — every arrival that
/// would reach the batch size flushes, and every tick empties the
/// queue — so the queue depth always stays below the batch size.
pub proof fn lemma_flush_policy(init: nat, evs: Seq<EngineEvent>, batch_size: nat)
    requires
        batch_size >= 1,
        init < batch_size,
    ensures
        queue_len_after(init, evs, batch_size) < batch_size,
    decreases evs.len(),
{
    if evs.len() > 0 {
        lemma_flush_policy(init, evs.drop_last(), batch_size);
    }
}

/// How many items of a batch are well formed.
pub open spec fn count_valid(items: Seq<ExportTraceServiceRequest>) -> nat
    decreases items.len(),
{
    if items.len() == 0 {
        0
    } else {
        (if all_spans_valid(spans_of_request(items[0])) {
            1nat
        } else {
            0nat
        }) + count_valid(items.drop_first())
    }
}

/// The storage log entries owed for a batch: the records of its
/// well-formed items, in arrival order; malformed items contribute
/// nothing.
pub open spec fn valid_records(prefix: Seq<char>, items: Seq<ExportTraceServiceRequest>) -> Seq<
    (Seq<char>, Seq<u8>),
>
    decreases items.len(),
{
    if items.len() == 0 {
        Seq::empty()
    } else {
        (if all_spans_valid(spans_of_request(items[0])) {
            span_records(prefix, converted_spans(spans_of_request(items[0])))
        } else {
            Seq::empty()
        }) + valid_records(prefix, items.drop_first())
    }
}

/// Across a batch, the processed total never shrinks and grows by at
/// most one per well-formed item.
proof fn lemma_batch_total_bound(
    prefix: Seq<char>,
    items: Seq<ExportTraceServiceRequest>,
    h0: HealthStatus,
    c0: Seq<(Seq<char>, Seq<u8>)>,
    h1: HealthStatus,
    c1: Seq<(Seq<char>, Seq<u8>)>,
    now: u64,
)
    requires
        batch_outcome(prefix, items, h0, c0, h1, c1, now),
    ensures
        h0.total_processed <= h1.total_processed <= h0.total_processed + count_valid(items),
    decreases items.len(),
{
    if items.len() > 0 {
        let (hm, cm) = choose|hm: HealthStatus, cm: Seq<(Seq<char>, Seq<u8>)>|
            #[trigger] item_outcome(prefix, items[0], h0, c0, hm, cm, now) && batch_outcome(
                prefix,
                items.drop_first(),
                hm,
                cm,
                h1,
                c1,
                now,
            );
        lemma_batch_total_bound(prefix, items.drop_first(), hm, cm, h1, c1, now);
    }
}

/// Delivery law: when a batch's health delta shows that every
/// well-formed item was counted as a success — as it is whenever
/// storage accepts every write — the storage log has grown by exactly
/// the records owed for the batch, in arrival order. With every item
/// well formed this is full drainage: every queued item reaches the
/// storage port.
pub proof fn lemma_all_writes_succeed(
    prefix: Seq<char>,
    items: Seq<ExportTraceServiceRequest>,
    h0: HealthStatus,
    c0: Seq<(Seq<char>, Seq<u8>)>,
    h1: HealthStatus,
    c1: Seq<(Seq<char>, Seq<u8>)>,
    now: u64,
)
    requires
        batch_outcome(prefix, items, h0, c0, h1, c1, now),
        h0.total_processed + count_valid(items) <= u64::MAX,
        h1.total_processed == h0.total_processed + count_valid(items),
    ensures
        c1 == c0 + valid_records(prefix, items),
    decreases items.len(),
{
    if items.len() == 0 {
        assert(c0 + valid_records(prefix, items) =~= c0);
    } else {
        let (hm, cm) = choose|hm: HealthStatus, cm: Seq<(Seq<char>, Seq<u8>)>|
            #[trigger] item_outcome(prefix, items[0], h0, c0, hm, cm, now) && batch_outcome(
                prefix,
                items.drop_first(),
                hm,
                cm,
                h1,
                c1,
                now,
            );
        let rest = items.drop_first();
        lemma_batch_total_bound(prefix, rest, hm, cm, h1, c1, now);
        if all_spans_valid(spans_of_request(items[0])) {
            let recs = span_records(prefix, converted_spans(spans_of_request(items[0])));
            // A failed first item would leave too little room for the
            // required total.
            assert(hm == success_step(h0, now) && cm == c0 + recs);
            lemma_all_writes_succeed(prefix, rest, hm, cm, h1, c1, now);
            assert(c1 =~= c0 + (recs + valid_records(prefix, rest)));
        } else {
            lemma_all_writes_succeed(prefix, rest, hm, cm, h1, c1, now);
            assert(valid_records(prefix, items) =~= valid_records(prefix, rest));
        }
    }
}

/// Every well-formed item of a sequence, counted.
proof fn lemma_count_valid_one_invalid(items: Seq<ExportTraceServiceRequest>, j: int)
    requires
        0 <= j < items.len(),
        !all_spans_valid(spans_of_request(items[j])),
        forall|t: int|
            0 <= t < items.len() && t != j ==> all_spans_valid(
                spans_of_request(#[trigger] items[t]),
            ),
    ensures
        count_valid(items) == items.len() - 1,
    decreases items.len(),
{
    if j == 0 {
        lemma_count_valid_all(items.drop_first());
    } else {
        lemma_count_valid_one_invalid(items.drop_first(), j - 1);
    }
}

/// A sequence of only well-formed items has them all counted.
proof fn lemma_count_valid_all(items: Seq<ExportTraceServiceRequest>)
    requires
        forall|t: int|
            0 <= t < items.len() ==> all_spans_valid(spans_of_request(#[trigger] items[t])),
    ensures
        count_valid(items) == items.len(),
    decreases items.len(),
{
    if items.len() > 0 {
        lemma_count_valid_all(items.drop_first());
    }
}

/// Per-item isolation law: a batch with exactly one malformed item
/// among well-formed ones, all of whose writes storage accepts, still
/// lands every well-formed item's records — the malformed item does
/// not abort the batch — and the failure streak afterwards shows
/// exactly the one recorded validation failure: one if the malformed
/// item came last, and zero if a later success already cleared it.
pub proof fn lemma_per_item_isolation(
    prefix: Seq<char>,
    items: Seq<ExportTraceServiceRequest>,
    j: int,
    h0: HealthStatus,
    c0: Seq<(Seq<char>, Seq<u8>)>,
    h1: HealthStatus,
    c1: Seq<(Seq<char>, Seq<u8>)>,
    now: u64,
)
    requires
        batch_outcome(prefix, items, h0, c0, h1, c1, now),
        0 <= j < items.len(),
        !all_spans_valid(spans_of_request(items[j])),
        forall|t: int|
            0 <= t < items.len() && t != j ==> all_spans_valid(
                spans_of_request(#[trigger] items[t]),
            ),
        h0.failed_writes == 0,
        h0.total_processed + items.len() - 1 <= u64::MAX,
        h1.total_processed == h0.total_processed + items.len() - 1,
    ensures
        c1 == c0 + valid_records(prefix, items),
        h1.failed_writes == if j == items.len() - 1 {
            1int
        } else {
            0int
        },
    decreases items.len(),
{
    lemma_count_valid_one_invalid(items, j);
    lemma_all_writes_succeed(prefix, items, h0, c0, h1, c1, now);
    let (hm, cm) = choose|hm: HealthStatus, cm: Seq<(Seq<char>, Seq<u8>)>|
        #[trigger] item_outcome(prefix, items[0], h0, c0, hm, cm, now) && batch_outcome(
            prefix,
            items.drop_first(),
            hm,
            cm,
            h1,
            c1,
            now,
        );
    let rest = items.drop_first();
    lemma_batch_total_bound(prefix, rest, hm, cm, h1, c1, now);
    if j == 0 {
        // The malformed item is first: its failure is recorded, and the
        // remaining well-formed items must then all succeed.
        assert(hm == failure_step(h0) && cm == c0);
        if rest.len() == 0 {
            assert(h1.failed_writes == 1);
        } else {
            lemma_count_valid_all(rest);
            lemma_failed_cleared_by_successes(prefix, rest, hm, cm, h1, c1, now);
        }
    } else {
        // The first item is well formed and, by the total, succeeded,
        // clearing any streak; recurse past it.
        assert(hm == success_step(h0, now));
        lemma_count_valid_one_invalid(rest, j - 1);
        lemma_per_item_isolation(prefix, rest, j - 1, hm, cm, h1, c1, now);
    }
}

/// A run of only well-formed items whose writes all succeed ends with
/// no failure streak.
proof fn lemma_failed_cleared_by_successes(
    prefix: Seq<char>,
    items: Seq<ExportTraceServiceRequest>,
    h0: HealthStatus,
    c0: Seq<(Seq<char>, Seq<u8>)>,
    h1: HealthStatus,
    c1: Seq<(Seq<char>, Seq<u8>)>,
    now: u64,
)
    requires
        batch_outcome(prefix, items, h0, c0, h1, c1, now),
        items.len() >= 1,
        forall|t: int|
            0 <= t < items.len() ==> all_spans_valid(spans_of_request(#[trigger] items[t])),
        h0.total_processed + items.len() <= u64::MAX,
        h1.total_processed == h0.total_processed + items.len(),
    ensures
        h1.failed_writes == 0,
    decreases items.len(),
{
    lemma_count_valid_all(items);
    let (hm, cm) = choose|hm: HealthStatus, cm: Seq<(Seq<char>, Seq<u8>)>|
        #[trigger] item_outcome(prefix, items[0], h0, c0, hm, cm, now) && batch_outcome(
            prefix,
            items.drop_first(),
            hm,
            cm,
            h1,
            c1,
            now,
        );
    let rest = items.drop_first();
    lemma_batch_total_bound(prefix, rest, hm, cm, h1, c1, now);
    if rest.len() == 0 {
        assert(hm == success_step(h0, now));
        assert(h1.failed_writes == 0);
    } else {
        lemma_count_valid_all(rest);
        assert(hm == success_step(h0, now));
        lemma_failed_cleared_by_successes(prefix, rest, hm, cm, h1, c1, now);
    }
}

/// Core engine responsible for processing and storing trace data.
/// Handles message batching, span conversion, and storage operations.
pub struct EngineCore<S: StorageWriter> {
    /// Maximum number of messages to process in a batch.
    batch_size: usize,
    /// Maximum time to wait before processing a partial batch.
    batch_timeout_ms: u64,
    /// Queue for accumulating messages before batch processing.
    message_queue: Vec<ExportTraceServiceRequest>,
    /// Storage backend for persisting trace data.
    storage_writer: S,
    /// Health monitoring for the engine.
    health_check: HealthCheck,
}

impl<S: StorageWriter> EngineCore<S> {
    /// The configured batch size.
    pub closed spec fn batch_size(&self) -> usize {
        self.batch_size
    }

    /// The configured batch timeout, in milliseconds.
    pub closed spec fn batch_timeout_ms(&self) -> u64 {
        self.batch_timeout_ms
    }

    /// The accumulated queue, in arrival order.
    pub closed spec fn queue(&self) -> Seq<ExportTraceServiceRequest> {
        self.message_queue@
    }

    /// The health counters.
    pub closed spec fn health(&self) -> HealthStatus {
        self.health_check@
    }

    /// The storage log of the engine's backend.
    pub closed spec fn log(&self) -> Seq<(Seq<char>, Seq<u8>)> {
        self.storage_writer.contents()
    }

    /// The key prefix of the engine's backend.
    pub closed spec fn prefix(&self) -> Seq<char> {
        self.storage_writer.key_prefix()
    }

    /// A well-formed engine: positive batch size, and a queue that has
    /// always been flushed before reaching it.
    pub open spec fn wf(&self) -> bool {
        self.batch_size() >= 1 && self.queue().len() < self.batch_size()
    }

    /// Whether this call kept the engine's configuration and backend
    /// identity.
    pub open spec fn same_config(&self, other: &Self) -> bool {
        &&& self.batch_size() == other.batch_size()
        &&& self.batch_timeout_ms() == other.batch_timeout_ms()
        &&& self.prefix() == other.prefix()
    }

    /// Creates a new engine with the specified configuration, consuming
    /// the storage backend it will write through.
    pub fn new(storage_writer: S, config: ProcessingConfig) -> (r: Self)
        requires
            config.batch_size > 0,
        ensures
            r.wf(),
            r.batch_size() == config.batch_size,
            r.batch_timeout_ms() == config.batch_timeout_ms,
            r.queue() == Seq::<ExportTraceServiceRequest>::empty(),
            r.health() == crate::health::initial_health(),
            r.log() == storage_writer.contents(),
            r.prefix() == storage_writer.key_prefix(),
    {
        EngineCore {
            batch_size: config.batch_size,
            batch_timeout_ms: config.batch_timeout_ms,
            message_queue: Vec::new(),
            storage_writer,
            health_check: HealthCheck::new(),
        }
    }

    /// Returns a reference to the health check monitor.
    pub fn get_health_check(&self) -> (r: &HealthCheck)
        ensures
            r@ == self.health(),
    {
        &self.health_check
    }

    /// Read access to the storage backend, for the query side.
    pub fn storage(&self) -> (r: &S)
        ensures
            r.contents() == self.log(),
            r.key_prefix() == self.prefix(),
    {
        &self.storage_writer
    }

    /// Processes a single message: converts it to spans and writes them
    /// to storage. A malformed message is rejected as a validation
    /// error without touching storage; a storage failure keeps the
    /// distinguishing detail. Either failure is recorded against
    /// health; a success is. The queue is not touched.
    pub fn process_message(&mut self, request: ExportTraceServiceRequest, now_secs: u64) -> (r:
        Result<ExportTraceServiceResponse, ProcessingError>)
        ensures
            old(self).same_config(final(self)),
            final(self).queue() == old(self).queue(),
            item_outcome(
                old(self).prefix(),
                request,
                old(self).health(),
                old(self).log(),
                final(self).health(),
                final(self).log(),
                now_secs,
            ),
            r is Ok <==> (all_spans_valid(spans_of_request(request)) && final(self).health()
                == success_step(old(self).health(), now_secs)),
            r matches Err(e) ==> final(self).health() == failure_step(old(self).health()) && (
            !all_spans_valid(spans_of_request(request)) ==> names_first_invalid(
                spans_of_request(request),
                e,
            )) && (all_spans_valid(spans_of_request(request)) ==> e is StorageError),
    {
        let spans = match convert_request_to_spans(&request) {
            Ok(s) => s,
            Err(e) => {
                self.health_check.record_failed_write();
                return Err(e);
            },
        };
        proof {
            assert(span_views(spans@) == converted_spans(spans_of_request(request)));
        }
        match self.storage_writer.write_spans(spans) {
            Ok(_) => {
                self.health_check.record_successful_write(now_secs);
                Ok(ExportTraceServiceResponse {  })
            },
            Err(se) => {
                self.health_check.record_failed_write();
                Err(ProcessingError::from_storage(se))
            },
        }
    }

    /// Processes the whole accumulated queue in arrival order, one item
    /// at a time: a failed item is recorded and skipped, never aborting
    /// the batch. The queue is empty afterwards.
    pub fn process_batch(&mut self, now_secs: u64)
        ensures
            old(self).same_config(final(self)),
            final(self).queue() == Seq::<ExportTraceServiceRequest>::empty(),
            batch_outcome(
                old(self).prefix(),
                old(self).queue(),
                old(self).health(),
                old(self).log(),
                final(self).health(),
                final(self).log(),
                now_secs,
            ),
    {
        let ghost q0 = self.queue();
        let ghost h0 = self.health();
        let ghost c0 = self.log();
        let ghost prefix = self.prefix();
        let ghost mut i: int = 0;
        while self.message_queue.len() > 0
            invariant
                0 <= i <= q0.len(),
                self.queue() == q0.skip(i),
                self.prefix() == prefix,
                self.batch_size() == old(self).batch_size(),
                self.batch_timeout_ms() == old(self).batch_timeout_ms(),
                batch_outcome(prefix, q0.take(i), h0, c0, self.health(), self.log(), now_secs),
            decreases self.queue().len(),
        {
            let ghost hm = self.health();
            let ghost cm = self.log();
            let message = self.message_queue.remove(0);
            proof {
                assert(message == q0[i]);
                assert(self.queue() =~= q0.skip(i + 1));
            }
            let outcome = self.process_message(message, now_secs);
            proof {
                lemma_batch_outcome_snoc(
                    prefix,
                    q0.take(i),
                    q0[i],
                    h0,
                    c0,
                    hm,
                    cm,
                    self.health(),
                    self.log(),
                    now_secs,
                );
                assert(q0.take(i + 1) =~= q0.take(i).push(q0[i]));
                i = i + 1;
            }
        }
        proof {
            assert(q0.take(i) =~= q0);
            assert(self.queue() =~= Seq::<ExportTraceServiceRequest>::empty());
        }
    }

    /// Accepts one inbound message: it joins the queue, and when that
    /// fills the batch, the batch is processed and the caller is told
    /// to reset its batch timer. The health queue-depth gauge is
    /// brought up to date either way.
    pub fn handle_message(&mut self, message: ExportTraceServiceRequest, now_secs: u64) -> (flushed:
        bool)
        requires
            old(self).wf(),
        ensures
            final(self).wf(),
            old(self).same_config(final(self)),
            final(self).health().queue_size == final(self).queue().len(),
            flushed == (old(self).queue().len() + 1 >= old(self).batch_size()),
            final(self).queue().len() == queue_len_step(
                old(self).queue().len() as nat,
                old(self).batch_size() as nat,
                EngineEvent::MessageArrived,
            ),
            !flushed ==> final(self).queue() == old(self).queue().push(message)
                && final(self).health() == with_queue(
                old(self).health(),
                final(self).queue().len() as u64,
            ) && final(self).log() == old(self).log(),
            flushed ==> final(self).queue() == Seq::<ExportTraceServiceRequest>::empty() && exists|
                h1: HealthStatus,
            |
                #[trigger] batch_outcome(
                    old(self).prefix(),
                    old(self).queue().push(message),
                    old(self).health(),
                    old(self).log(),
                    h1,
                    final(self).log(),
                    now_secs,
                ) && final(self).health() == with_queue(h1, 0),
    {
        self.message_queue.push(message);
        let mut flushed = false;
        let ghost hmid = self.health();
        if self.message_queue.len() >= self.batch_size {
            self.process_batch(now_secs);
            flushed = true;
        }
        let ghost h1 = self.health();
        let depth = self.message_queue.len();
        self.health_check.update_queue_size(depth as u64);
        proof {
            if flushed {
                assert(batch_outcome(
                    old(self).prefix(),
                    old(self).queue().push(message),
                    old(self).health(),
                    old(self).log(),
                    h1,
                    final(self).log(),
                    now_secs,
                ));
                assert(final(self).health() == with_queue(h1, 0));
            }
        }
        flushed
    }

    /// Handles one batch-timer tick: a non-empty queue is flushed; an
    /// empty queue makes the tick a no-op. The queue is empty either
    /// way, and the health queue-depth gauge reads zero.
    pub fn handle_tick(&mut self, now_secs: u64)
        requires
            old(self).wf(),
        ensures
            final(self).wf(),
            old(self).same_config(final(self)),
            final(self).queue() == Seq::<ExportTraceServiceRequest>::empty(),
            final(self).health().queue_size == 0,
            final(self).queue().len() == queue_len_step(
                old(self).queue().len() as nat,
                old(self).batch_size() as nat,
                EngineEvent::TimerTick,
            ),
            exists|h1: HealthStatus|
                #[trigger] batch_outcome(
                    old(self).prefix(),
                    old(self).queue(),
                    old(self).health(),
                    old(self).log(),
                    h1,
                    final(self).log(),
                    now_secs,
                ) && final(self).health() == with_queue(h1, 0),
    {
        if self.message_queue.len() > 0 {
            self.process_batch(now_secs);
        }
        let ghost h1 = self.health();
        self.health_check.update_queue_size(0);
        proof {
            if old(self).queue().len() == 0 {
                assert(self.queue() =~= old(self).queue());
            }
            assert(batch_outcome(
                old(self).prefix(),
                old(self).queue(),
                old(self).health(),
                old(self).log(),
                h1,
                final(self).log(),
                now_secs,
            ));
            assert(final(self).health() == with_queue(h1, 0));
        }
    }

    /// Performs graceful shutdown: every item still queued is processed
    /// synchronously in arrival order, with the same per-item isolation
    /// as a normal flush, then the storage backend is flushed. Only a
    /// storage flush failure surfaces; it does not lose queued items,
    /// which were all processed first.
    pub fn shutdown(&mut self, now_secs: u64) -> (r: Result<(), ProcessingError>)
        ensures
            old(self).same_config(final(self)),
            final(self).queue() == Seq::<ExportTraceServiceRequest>::empty(),
            final(self).health().queue_size == 0,
            exists|h1: HealthStatus|
                #[trigger] batch_outcome(
                    old(self).prefix(),
                    old(self).queue(),
                    old(self).health(),
                    old(self).log(),
                    h1,
                    final(self).log(),
                    now_secs,
                ) && final(self).health() == with_queue(h1, 0),
            r matches Err(e) ==> e is StorageError,
    {
        self.process_batch(now_secs);
        let ghost h1 = self.health();
        self.health_check.update_queue_size(0);
        let r = match self.storage_writer.flush() {
            Ok(_) => Ok(()),
            Err(se) => Err(ProcessingError::from_storage(se)),
        };
        proof {
            assert(batch_outcome(
                old(self).prefix(),
                old(self).queue(),
                old(self).health(),
                old(self).log(),
                h1,
                final(self).log(),
                now_secs,
            ));
            assert(final(self).health() == with_queue(h1, 0));
        }
        r
    }
}

} // verus!
