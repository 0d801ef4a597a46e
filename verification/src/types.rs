//! Shared data types for the monitoring core.
//!
//! Timestamps throughout the crate are Unix times in whole seconds (`i64`);
//! latencies are whole milliseconds. Callers that work with richer clock or
//! network-address types convert at the boundary before handing values in.

use vstd::prelude::*;

verus! {

/// Current online/offline classification of a host.
#[derive(Debug, Clone, Copy, PartialEq, Eq, Structural)]
pub enum Status {
    Online,
    Offline,
}

/// Kind of a recorded state-transition event.
///
/// `Unknown` means the host's state during an interval was not observed; it
/// is recorded only at monitor-restart boundaries.
#[derive(Debug, Clone, Copy, PartialEq, Eq, Structural)]
pub enum EventType {
    Online,
    Offline,
    Unknown,
}

impl From<Status> for EventType {
    fn from(status: Status) -> (r: Self) {
        match status {
            Status::Online => EventType::Online,
            Status::Offline => EventType::Offline,
        }
    }
}

impl vstd::std_specs::convert::FromSpecImpl<Status> for EventType {
    open spec fn obeys_from_spec() -> bool {
        true
    }

    open spec fn from_spec(status: Status) -> EventType {
        match status {
            Status::Online => EventType::Online,
            Status::Offline => EventType::Offline,
        }
    }
}

/// Summarised availability of one timeline bucket.
///
/// `NoData` covers both monitoring gaps (the monitor was not running) and
/// windows whose state was not observed.
#[derive(Debug, Clone, Copy, PartialEq, Eq, Structural)]
pub enum TimelineBucketState {
    Online,
    Offline,
    NoData,
}

/// How a monitor run ended.
#[derive(Debug, Clone, Copy, PartialEq, Eq, Structural)]
pub enum ShutdownType {
    /// Closed by an explicit, cooperative shutdown call.
    Clean,
    /// Closed by the next startup's reconciliation; the stop time is the
    /// last recorded ping timestamp.
    Crashed,
    /// Closed by reconciliation with no ping ever recorded; the stop time
    /// falls back to the session's own start.
    Unknown,
}

/// Configuration for a single host to monitor.
#[derive(Debug, Clone)]
pub struct HostConfig {
    pub hostname: String,
    pub ip_address: String,
}

/// Spec-level value of a [`HostConfig`].
pub ghost struct HostConfigV {
    pub hostname: Seq<char>,
    pub ip_address: Seq<char>,
}

impl View for HostConfig {
    type V = HostConfigV;

    open spec fn view(&self) -> HostConfigV {
        HostConfigV { hostname: self.hostname@, ip_address: self.ip_address@ }
    }
}

/// One row of the host identity table.
///
/// Identity is deterministic from `(hostname, ip_address)`: re-registering
/// an existing pair returns the same id and never duplicates the row.
#[derive(Debug, Clone)]
pub struct HostRow {
    pub id: i64,
    pub hostname: String,
    pub ip_address: String,
    pub created_at: i64,
    /// First time the host was ever observed online; write-once.
    pub first_inserted: Option<i64>,
}

/// Spec-level value of a [`HostRow`].
pub ghost struct HostRowV {
    pub id: i64,
    pub hostname: Seq<char>,
    pub ip_address: Seq<char>,
    pub created_at: i64,
    pub first_inserted: Option<i64>,
}

impl View for HostRow {
    type V = HostRowV;

    open spec fn view(&self) -> HostRowV {
        HostRowV {
            id: self.id,
            hostname: self.hostname@,
            ip_address: self.ip_address@,
            created_at: self.created_at,
            first_inserted: self.first_inserted,
        }
    }
}

/// A recorded state transition for a host. Append-only.
#[derive(Debug, Clone, Copy, PartialEq, Eq, Structural)]
pub struct HostEvent {
    pub id: i64,
    pub host_id: i64,
    pub event_type: EventType,
    pub timestamp: i64,
}

/// Raw probe telemetry for one host and one tick. Append-only; not
/// consulted by the bucket algorithm.
#[derive(Debug, Clone, Copy, PartialEq, Eq, Structural)]
pub struct PingRecord {
    pub id: i64,
    pub host_id: i64,
    pub success_count: u32,
    pub total_count: u32,
    pub avg_latency_ms: Option<u64>,
    pub timestamp: i64,
}

/// One contiguous interval during which the monitor process was running.
///
/// `stopped_at == None` marks the run as still in progress; at most one
/// session is open at a time.
#[derive(Debug, Clone, Copy, PartialEq, Eq, Structural)]
pub struct ServerSession {
    pub id: i64,
    pub started_at: i64,
    pub stopped_at: Option<i64>,
    pub shutdown_type: Option<ShutdownType>,
}

/// Outcome of probing one host once.
#[derive(Debug, Clone)]
pub struct PingResult {
    pub hostname: String,
    pub ip_address: String,
    pub success_count: u32,
    pub total_count: u32,
    pub avg_latency_ms: Option<u64>,
    pub timestamp: i64,
}

/// Spec-level value of a [`PingResult`].
pub ghost struct PingResultV {
    pub hostname: Seq<char>,
    pub ip_address: Seq<char>,
    pub success_count: u32,
    pub total_count: u32,
    pub avg_latency_ms: Option<u64>,
    pub timestamp: i64,
}

impl View for PingResult {
    type V = PingResultV;

    open spec fn view(&self) -> PingResultV {
        PingResultV {
            hostname: self.hostname@,
            ip_address: self.ip_address@,
            success_count: self.success_count,
            total_count: self.total_count,
            avg_latency_ms: self.avg_latency_ms,
            timestamp: self.timestamp,
        }
    }
}

impl PingResult {
    /// A probe counts as online when any of its pings succeeded.
    pub fn is_online(&self) -> (r: bool)
        ensures
            r == (self.success_count > 0),
    {
        self.success_count > 0
    }
}

/// Most recent known state of a host, kept in the in-memory status cache.
#[derive(Debug, Clone)]
pub struct HostStatus {
    pub id: i64,
    pub hostname: String,
    pub ip_address: String,
    pub status: Status,
    pub last_check: i64,
    pub success_count: u32,
    pub total_count: u32,
    pub avg_latency_ms: Option<u64>,
}

/// Spec-level value of a [`HostStatus`].
pub ghost struct HostStatusV {
    pub id: i64,
    pub hostname: Seq<char>,
    pub ip_address: Seq<char>,
    pub status: Status,
    pub last_check: i64,
    pub success_count: u32,
    pub total_count: u32,
    pub avg_latency_ms: Option<u64>,
}

impl View for HostStatus {
    type V = HostStatusV;

    open spec fn view(&self) -> HostStatusV {
        HostStatusV {
            id: self.id,
            hostname: self.hostname@,
            ip_address: self.ip_address@,
            status: self.status,
            last_check: self.last_check,
            success_count: self.success_count,
            total_count: self.total_count,
            avg_latency_ms: self.avg_latency_ms,
        }
    }
}

/// Bucketed availability history for one host over a time range.
#[derive(Debug, Clone)]
pub struct HostTimeline {
    pub id: i64,
    pub hostname: String,
    pub ip_address: String,
    pub current_status: Status,
    pub buckets: Vec<TimelineBucketState>,
    pub bucket_duration_secs: u32,
    pub start_time: i64,
    pub end_time: i64,
}

/// Spec-level value of a [`HostTimeline`].
pub ghost struct HostTimelineV {
    pub id: i64,
    pub hostname: Seq<char>,
    pub ip_address: Seq<char>,
    pub current_status: Status,
    pub buckets: Seq<TimelineBucketState>,
    pub bucket_duration_secs: u32,
    pub start_time: i64,
    pub end_time: i64,
}

impl View for HostTimeline {
    type V = HostTimelineV;

    open spec fn view(&self) -> HostTimelineV {
        HostTimelineV {
            id: self.id,
            hostname: self.hostname@,
            ip_address: self.ip_address@,
            current_status: self.current_status,
            buckets: self.buckets@,
            bucket_duration_secs: self.bucket_duration_secs,
            start_time: self.start_time,
            end_time: self.end_time,
        }
    }
}

} // verus!
