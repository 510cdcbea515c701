//! Aggregate health reporting: counters written by the batching engine
//! and read, as point-in-time snapshots, by the ingestion and query
//! boundaries.
//!
//! The counter policy is: a success stamps the last-write time, counts
//! the message, and clears any failure streak; a failure lengthens the
//! streak and marks the system unhealthy once the streak exceeds
//! [`FAILURE_THRESHOLD`]; a single success restores health entirely.
use vstd::prelude::*;

verus! {

/// A failure streak strictly longer than this marks the system unhealthy.
pub const FAILURE_THRESHOLD: u64 = 5;

/// Component for monitoring and reporting system health metrics.
pub struct HealthCheck {
    /// Overall health status of the system.
    is_healthy: bool,
    /// Timestamp (seconds since the epoch) of the last successful write.
    last_successful_write: u64,
    /// Current size of the message processing queue.
    message_queue_size: u64,
    /// Total number of messages processed since startup.
    total_messages_processed: u64,
    /// Number of consecutive failed write operations.
    failed_writes: u64,
}

/// Represents the current health status and metrics of the system:
/// a point-in-time copy of the live counters.
#[derive(Debug, Clone, Copy, PartialEq, Eq, Structural)]
pub struct HealthStatus {
    /// Whether the system is currently healthy.
    pub is_healthy: bool,
    /// Timestamp of the last successful write, in seconds since the epoch.
    pub last_write: u64,
    /// Current size of the message queue.
    pub queue_size: u64,
    /// Total number of messages processed.
    pub total_processed: u64,
    /// Number of consecutive write failures.
    pub failed_writes: u64,
}

/// A health report extended with the current time.
#[derive(Debug, Clone, Copy, PartialEq, Eq, Structural)]
pub struct DetailedHealthStatus {
    pub is_healthy: bool,
    pub last_write: u64,
    pub queue_size: u64,
    pub total_processed: u64,
    pub failed_writes: u64,
    pub uptime_seconds: u64,
}

impl View for HealthCheck {
    type V = HealthStatus;

    closed spec fn view(&self) -> HealthStatus {
        HealthStatus {
            is_healthy: self.is_healthy,
            last_write: self.last_successful_write,
            queue_size: self.message_queue_size,
            total_processed: self.total_messages_processed,
            failed_writes: self.failed_writes,
        }
    }
}

/// The counters of a freshly started, healthy system.
pub open spec fn initial_health() -> HealthStatus {
    HealthStatus {
        is_healthy: true,
        last_write: 0,
        queue_size: 0,
        total_processed: 0,
        failed_writes: 0,
    }
}

/// How the counters move on a successful write at time `now`: the
/// last-write stamp is updated, the processed total counts one more
/// message (saturating at the counter's width), and any failure streak
/// is cleared, restoring health.
pub open spec fn success_step(h: HealthStatus, now: u64) -> HealthStatus {
    HealthStatus {
        is_healthy: if h.failed_writes > 0 {
            true
        } else {
            h.is_healthy
        },
        last_write: now,
        queue_size: h.queue_size,
        total_processed: if h.total_processed < u64::MAX {
            (h.total_processed + 1) as u64
        } else {
            u64::MAX
        },
        failed_writes: 0,
    }
}

/// How the counters move on a failed write: the failure streak lengthens
/// by one (saturating at the counter's width), and once it exceeds
/// [`FAILURE_THRESHOLD`] the system is marked unhealthy.
pub open spec fn failure_step(h: HealthStatus) -> HealthStatus {
    let failed = if h.failed_writes < u64::MAX {
        (h.failed_writes + 1) as u64
    } else {
        u64::MAX
    };
    HealthStatus {
        is_healthy: if failed > FAILURE_THRESHOLD {
            false
        } else {
            h.is_healthy
        },
        last_write: h.last_write,
        queue_size: h.queue_size,
        total_processed: h.total_processed,
        failed_writes: failed,
    }
}

impl HealthCheck {
    /// Creates a new HealthCheck instance with default values: healthy,
    /// all counters at zero.
    pub fn new() -> (r: Self)
        ensures
            r@ == initial_health(),
    {
        Self {
            is_healthy: true,
            last_successful_write: 0,
            message_queue_size: 0,
            total_messages_processed: 0,
            failed_writes: 0,
        }
    }

    /// Updates the overall health status.
    pub fn update_status(&mut self, healthy: bool)
        ensures
            final(self)@ == (HealthStatus { is_healthy: healthy, ..old(self)@ }),
    {
        self.is_healthy = healthy;
    }

    /// Records a successful write operation performed at time `now`
    /// (seconds since the epoch, supplied by the caller's clock).
    pub fn record_successful_write(&mut self, now: u64)
        ensures
            final(self)@ == success_step(old(self)@, now),
    {
        self.last_successful_write = now;

        if self.total_messages_processed < u64::MAX {
            self.total_messages_processed = self.total_messages_processed + 1;
        }

        // Reset failed writes if any successful write occurs
        if self.failed_writes > 0 {
            self.failed_writes = 0;
            self.is_healthy = true;
        }
    }

    /// Records a failed write operation.
    pub fn record_failed_write(&mut self)
        ensures
            final(self)@ == failure_step(old(self)@),
    {
        if self.failed_writes < u64::MAX {
            self.failed_writes = self.failed_writes + 1;
        }

        // Mark system as unhealthy if too many consecutive failures
        if self.failed_writes > FAILURE_THRESHOLD {
            self.is_healthy = false;
        }
    }

    /// Updates the current message queue size.
    pub fn update_queue_size(&mut self, size: u64)
        ensures
            final(self)@ == (HealthStatus { queue_size: size, ..old(self)@ }),
    {
        self.message_queue_size = size;
    }

    /// Returns the current health status and metrics.
    pub fn get_health_status(&self) -> (r: HealthStatus)
        ensures
            r == self@,
    {
        HealthStatus {
            is_healthy: self.is_healthy,
            last_write: self.last_successful_write,
            queue_size: self.message_queue_size,
            total_processed: self.total_messages_processed,
            failed_writes: self.failed_writes,
        }
    }

    /// Returns a detailed health report, stamped with the caller-supplied
    /// current time.
    pub fn get_detailed_status(&self, now: u64) -> (r: DetailedHealthStatus)
        ensures
            r.is_healthy == self@.is_healthy,
            r.last_write == self@.last_write,
            r.queue_size == self@.queue_size,
            r.total_processed == self@.total_processed,
            r.failed_writes == self@.failed_writes,
            r.uptime_seconds == now,
    {
        DetailedHealthStatus {
            is_healthy: self.is_healthy,
            last_write: self.last_successful_write,
            queue_size: self.message_queue_size,
            total_processed: self.total_messages_processed,
            failed_writes: self.failed_writes,
            uptime_seconds: now,
        }
    }
}

/// The counters after a run of consecutive failures.
pub open spec fn failure_steps(h: HealthStatus, n: nat) -> HealthStatus
    decreases n,
{
    if n == 0 {
        h
    } else {
        failure_step(failure_steps(h, (n - 1) as nat))
    }
}

/// A run of `n` consecutive failures from a state with no failure streak
/// leaves the streak at exactly `n`, and health is withdrawn exactly when
/// the streak exceeds [`FAILURE_THRESHOLD`].
pub proof fn lemma_failure_streak(h: HealthStatus, n: nat)
    requires
        h.failed_writes == 0,
        n <= FAILURE_THRESHOLD + 1,
    ensures
        failure_steps(h, n).failed_writes == n,
        failure_steps(h, n).is_healthy == (h.is_healthy && n <= FAILURE_THRESHOLD),
    decreases n,
{
    if n > 0 {
        lemma_failure_streak(h, (n - 1) as nat);
    }
}

/// Health counter law: from a healthy start, the sixth consecutive
/// recorded failure is the first to withdraw health, and one subsequent
/// success restores it and clears the failure streak entirely.
pub proof fn lemma_failure_threshold_and_recovery(h: HealthStatus, now: u64)
    requires
        h.is_healthy,
        h.failed_writes == 0,
    ensures
        failure_steps(h, (FAILURE_THRESHOLD + 1) as nat).is_healthy == false,
        failure_steps(h, FAILURE_THRESHOLD as nat).is_healthy == true,
        success_step(failure_steps(h, (FAILURE_THRESHOLD + 1) as nat), now).is_healthy == true,
        success_step(failure_steps(h, (FAILURE_THRESHOLD + 1) as nat), now).failed_writes == 0,
{
    lemma_failure_streak(h, FAILURE_THRESHOLD as nat);
    lemma_failure_streak(h, (FAILURE_THRESHOLD + 1) as nat);
}

} // verus!
