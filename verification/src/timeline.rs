//! Timeline reconstruction: summarise a host's event history into a fixed
//! number of equally wide, half-open time buckets.
//!
//! The state of a bucket is decided in priority order: a window the monitor
//! never covered is `NoData` whatever events claim; otherwise any observed
//! `Offline` event taints the window, an `Unknown` event makes it `NoData`,
//! an `Online` event makes it `Online`; a window with no events inherits
//! from the nearest preceding event, and `NoData` when there is none.

use vstd::arithmetic::div_mod::lemma_div_pos_is_pos;
use vstd::arithmetic::div_mod::lemma_fundamental_div_mod;
use vstd::arithmetic::mul::lemma_mul_inequality;
use vstd::prelude::*;

use crate::store::Database;
use crate::types::EventType;
use crate::types::HostEvent;
use crate::types::ServerSession;
use crate::types::TimelineBucketState;

verus! {

/// When the session stopped, or `now` while it is still running.
pub open spec fn session_end_or_now(s: ServerSession, now: i64) -> i64 {
    match s.stopped_at {
        Some(t) => t,
        None => now,
    }
}

/// Does the session's run interval overlap the window `[ws, we)`?
pub open spec fn session_overlaps_window(s: ServerSession, ws: int, we: int, now: i64) -> bool {
    s.started_at < we && session_end_or_now(s, now) > ws
}

/// Was the monitor running at some point during the window?
pub open spec fn some_session_overlaps(
    sessions: Seq<ServerSession>,
    ws: int,
    we: int,
    now: i64,
) -> bool {
    exists|i: int| 0 <= i < sessions.len() && session_overlaps_window(sessions[i], ws, we, now)
}

/// Does the event's timestamp fall inside the half-open window `[ws, we)`?
pub open spec fn event_in_window(e: HostEvent, ws: int, we: int) -> bool {
    ws <= e.timestamp < we
}

/// Does some event of this kind fall inside the window?
pub open spec fn some_event_of_kind_in_window(
    events: Seq<HostEvent>,
    kind: EventType,
    ws: int,
    we: int,
) -> bool {
    exists|i: int|
        0 <= i < events.len() && event_in_window(#[trigger] events[i], ws, we)
            && events[i].event_type == kind
}

/// The latest event strictly before time `t`, if any.
///
/// The event log is kept oldest-first, so the last entry before `t` is also
/// the most recent one.
pub open spec fn last_event_before(events: Seq<HostEvent>, t: int) -> Option<HostEvent>
    decreases events.len(),
{
    if events.len() == 0 {
        None
    } else if events.last().timestamp < t {
        Some(events.last())
    } else {
        last_event_before(events.drop_last(), t)
    }
}

/// The state a bucket without events reports, implied by the nearest
/// preceding event.
pub open spec fn inherited_bucket_state(prior: Option<HostEvent>) -> TimelineBucketState {
    match prior {
        Some(e) => match e.event_type {
            EventType::Online => TimelineBucketState::Online,
            EventType::Offline => TimelineBucketState::Offline,
            EventType::Unknown => TimelineBucketState::NoData,
        },
        None => TimelineBucketState::NoData,
    }
}

/// The state of the bucket with window `[ws, we)`, decided in priority
/// order over the given events and sessions.
pub open spec fn bucket_state(
    events: Seq<HostEvent>,
    sessions: Seq<ServerSession>,
    ws: int,
    we: int,
    now: i64,
) -> TimelineBucketState {
    if !some_session_overlaps(sessions, ws, we, now) {
        TimelineBucketState::NoData
    } else if some_event_of_kind_in_window(events, EventType::Offline, ws, we) {
        TimelineBucketState::Offline
    } else if some_event_of_kind_in_window(events, EventType::Unknown, ws, we) {
        TimelineBucketState::NoData
    } else if some_event_of_kind_in_window(events, EventType::Online, ws, we) {
        TimelineBucketState::Online
    } else {
        inherited_bucket_state(last_event_before(events, ws))
    }
}

/// Priority law: a covered window that contains both an `Offline` and an
/// `Online` event reports `Offline` — observed downtime taints the whole
/// window even when the host recovered inside it.
pub proof fn lemma_offline_dominates_online(
    events: Seq<HostEvent>,
    sessions: Seq<ServerSession>,
    ws: int,
    we: int,
    now: i64,
)
    requires
        some_session_overlaps(sessions, ws, we, now),
        some_event_of_kind_in_window(events, EventType::Offline, ws, we),
        some_event_of_kind_in_window(events, EventType::Online, ws, we),
    ensures
        bucket_state(events, sessions, ws, we, now) == TimelineBucketState::Offline,
{
}

/// Priority law: a covered window that contains both an `Offline` and an
/// `Unknown` event reports `Offline` — downtime dominates an unobserved
/// stretch.
pub proof fn lemma_offline_dominates_unknown(
    events: Seq<HostEvent>,
    sessions: Seq<ServerSession>,
    ws: int,
    we: int,
    now: i64,
)
    requires
        some_session_overlaps(sessions, ws, we, now),
        some_event_of_kind_in_window(events, EventType::Offline, ws, we),
        some_event_of_kind_in_window(events, EventType::Unknown, ws, we),
    ensures
        bucket_state(events, sessions, ws, we, now) == TimelineBucketState::Offline,
{
}

/// Coverage law: a window no session overlaps reports `NoData`, whatever
/// events carry timestamps inside it.
pub proof fn lemma_uncovered_window_is_no_data(
    events: Seq<HostEvent>,
    sessions: Seq<ServerSession>,
    ws: int,
    we: int,
    now: i64,
)
    requires
        !some_session_overlaps(sessions, ws, we, now),
    ensures
        bucket_state(events, sessions, ws, we, now) == TimelineBucketState::NoData,
{
}

/// Inheritance law: a covered window with no events reports the state
/// implied by the nearest preceding event, and `NoData` when no event
/// precedes the window at all.
pub proof fn lemma_empty_window_inherits(
    events: Seq<HostEvent>,
    sessions: Seq<ServerSession>,
    ws: int,
    we: int,
    now: i64,
)
    requires
        some_session_overlaps(sessions, ws, we, now),
        forall|i: int| 0 <= i < events.len() ==> !event_in_window(#[trigger] events[i], ws, we),
    ensures
        bucket_state(events, sessions, ws, we, now) == inherited_bucket_state(
            last_event_before(events, ws),
        ),
        last_event_before(events, ws) is None ==> bucket_state(events, sessions, ws, we, now)
            == TimelineBucketState::NoData,
{
    assert(!some_event_of_kind_in_window(events, EventType::Offline, ws, we));
    assert(!some_event_of_kind_in_window(events, EventType::Unknown, ws, we));
    assert(!some_event_of_kind_in_window(events, EventType::Online, ws, we));
}

/// The events of this host whose timestamps lie in `[lo, hi]`, oldest
/// first.
pub open spec fn events_in_range(events: Seq<HostEvent>, host_id: i64, lo: i64, hi: i64) -> Seq<
    HostEvent,
>
    decreases events.len(),
{
    if events.len() == 0 {
        Seq::empty()
    } else {
        let init = events_in_range(events.drop_last(), host_id, lo, hi);
        if events.last().host_id == host_id && lo <= events.last().timestamp
            && events.last().timestamp <= hi {
            init.push(events.last())
        } else {
            init
        }
    }
}

/// The sessions that could overlap `[lo, hi]`: started no later than `hi`
/// and either still open or stopped no earlier than `lo`. Oldest first.
pub open spec fn sessions_in_range(sessions: Seq<ServerSession>, lo: i64, hi: i64) -> Seq<
    ServerSession,
>
    decreases sessions.len(),
{
    if sessions.len() == 0 {
        Seq::empty()
    } else {
        let init = sessions_in_range(sessions.drop_last(), lo, hi);
        let s = sessions.last();
        if s.started_at <= hi && (s.stopped_at is None || s.stopped_at->0 >= lo) {
            init.push(s)
        } else {
            init
        }
    }
}

/// The width of each bucket when `[start, end)` is split into
/// `num_buckets` equal parts, truncated to whole seconds.
pub open spec fn spec_bucket_width(start: i64, end: i64, num_buckets: int) -> int {
    (end - start) / num_buckets
}

/// The whole bucket sequence for `[start, end)` split into `num_buckets`
/// windows of width `spec_bucket_width(start, end, num_buckets)`.
pub open spec fn timeline_buckets(
    events: Seq<HostEvent>,
    sessions: Seq<ServerSession>,
    start: i64,
    end: i64,
    num_buckets: int,
    now: i64,
) -> Seq<TimelineBucketState> {
    Seq::new(
        num_buckets as nat,
        |i: int|
            bucket_state(
                events,
                sessions,
                start + i * spec_bucket_width(start, end, num_buckets),
                start + (i + 1) * spec_bucket_width(start, end, num_buckets),
                now,
            ),
    )
}

/// Exclusive checker for one event kind inside a window.
fn any_event_of_kind_in_window(
    events: &Vec<HostEvent>,
    kind: EventType,
    ws: i64,
    we: i64,
) -> (r: bool)
    ensures
        r == some_event_of_kind_in_window(events@, kind, ws as int, we as int),
{
    let n = events.len();
    let mut i: usize = 0;
    while i < n
        invariant
            i <= n,
            n == events.len(),
            forall|k: int|
                0 <= k < i ==> !(event_in_window(#[trigger] events@[k], ws as int, we as int)
                    && events@[k].event_type == kind),
        decreases n - i,
    {
        if ws <= events[i].timestamp && events[i].timestamp < we && events[i].event_type == kind {
            return true;
        }
        i += 1;
    }
    false
}

impl Database {
    /// Events for a host with timestamps inside `[start_time, end_time]`,
    /// oldest first.
    pub fn get_host_events_in_range(&self, host_id: i64, start_time: i64, end_time: i64) -> (r:
        Vec<HostEvent>)
        ensures
            r@ == events_in_range(self@.events, host_id, start_time, end_time),
    {
        let mut r: Vec<HostEvent> = Vec::new();
        let n = self.events.len();
        let mut i: usize = 0;
        while i < n
            invariant
                i <= n,
                n == self.events.len(),
                r@ == events_in_range(self@.events.take(i as int), host_id, start_time, end_time),
            decreases n - i,
        {
            proof {
                assert(self@.events.take(i + 1).drop_last() =~= self@.events.take(i as int));
                assert(self@.events.take(i + 1).last() == self@.events[i as int]);
            }
            let e = self.events[i];
            if e.host_id == host_id && start_time <= e.timestamp && e.timestamp <= end_time {
                r.push(e);
            }
            i += 1;
        }
        proof {
            assert(self@.events.take(n as int) =~= self@.events);
        }
        r
    }

    /// Sessions that could overlap `[start_time, end_time]`, oldest first.
    pub fn get_sessions_in_range(&self, start_time: i64, end_time: i64) -> (r: Vec<ServerSession>)
        ensures
            r@ == sessions_in_range(self@.sessions, start_time, end_time),
    {
        let mut r: Vec<ServerSession> = Vec::new();
        let n = self.sessions.len();
        let mut i: usize = 0;
        while i < n
            invariant
                i <= n,
                n == self.sessions.len(),
                r@ == sessions_in_range(self@.sessions.take(i as int), start_time, end_time),
            decreases n - i,
        {
            proof {
                assert(self@.sessions.take(i + 1).drop_last() =~= self@.sessions.take(i as int));
                assert(self@.sessions.take(i + 1).last() == self@.sessions[i as int]);
            }
            let s = self.sessions[i];
            let keep = s.started_at <= end_time && match s.stopped_at {
                None => true,
                Some(t) => t >= start_time,
            };
            if keep {
                r.push(s);
            }
            i += 1;
        }
        proof {
            assert(self@.sessions.take(n as int) =~= self@.sessions);
        }
        r
    }

    /// Decide the state of the bucket with window `[bucket_start,
    /// bucket_end)` from the fetched events and sessions.
    pub fn determine_bucket_state(
        &self,
        events: &Vec<HostEvent>,
        sessions: &Vec<ServerSession>,
        bucket_start: i64,
        bucket_end: i64,
        now: i64,
    ) -> (r: TimelineBucketState)
        ensures
            r == bucket_state(events@, sessions@, bucket_start as int, bucket_end as int, now),
    {
        let ns = sessions.len();
        let mut i: usize = 0;
        let mut running = false;
        while i < ns && !running
            invariant
                i <= ns,
                ns == sessions.len(),
                running ==> some_session_overlaps(
                    sessions@,
                    bucket_start as int,
                    bucket_end as int,
                    now,
                ),
                !running ==> forall|k: int|
                    0 <= k < i ==> !session_overlaps_window(
                        #[trigger] sessions@[k],
                        bucket_start as int,
                        bucket_end as int,
                        now,
                    ),
            decreases ns - i,
        {
            let s = sessions[i];
            let session_end = match s.stopped_at {
                Some(t) => t,
                None => now,
            };
            if s.started_at < bucket_end && session_end > bucket_start {
                running = true;
            }
            i += 1;
        }
        if !running {
            return TimelineBucketState::NoData;
        }
        if any_event_of_kind_in_window(events, EventType::Offline, bucket_start, bucket_end) {
            return TimelineBucketState::Offline;
        }
        if any_event_of_kind_in_window(events, EventType::Unknown, bucket_start, bucket_end) {
            return TimelineBucketState::NoData;
        }
        if any_event_of_kind_in_window(events, EventType::Online, bucket_start, bucket_end) {
            return TimelineBucketState::Online;
        }
        let mut j: usize = events.len();
        proof {
            assert(events@.take(j as int) =~= events@);
        }
        while j > 0
            invariant
                j <= events.len(),
                some_session_overlaps(sessions@, bucket_start as int, bucket_end as int, now),
                !some_event_of_kind_in_window(
                    events@,
                    EventType::Offline,
                    bucket_start as int,
                    bucket_end as int,
                ),
                !some_event_of_kind_in_window(
                    events@,
                    EventType::Unknown,
                    bucket_start as int,
                    bucket_end as int,
                ),
                !some_event_of_kind_in_window(
                    events@,
                    EventType::Online,
                    bucket_start as int,
                    bucket_end as int,
                ),
                last_event_before(events@, bucket_start as int) == last_event_before(
                    events@.take(j as int),
                    bucket_start as int,
                ),
            decreases j,
        {
            proof {
                assert(events@.take(j as int).drop_last() =~= events@.take(j - 1));
                assert(events@.take(j as int).last() == events@[j - 1]);
            }
            if events[j - 1].timestamp < bucket_start {
                let prior = events[j - 1];
                return match prior.event_type {
                    EventType::Online => TimelineBucketState::Online,
                    EventType::Offline => TimelineBucketState::Offline,
                    EventType::Unknown => TimelineBucketState::NoData,
                };
            }
            j -= 1;
        }
        proof {
            assert(events@.take(0) =~= Seq::<HostEvent>::empty());
        }
        TimelineBucketState::NoData
    }

    /// Reconstruct the bucketed availability history of one host over
    /// `[start_time, end_time)`, split into `num_buckets` windows of equal
    /// whole-second width.
    pub fn get_host_timeline(
        &self,
        host_id: i64,
        start_time: i64,
        end_time: i64,
        num_buckets: usize,
        now: i64,
    ) -> (r: Vec<TimelineBucketState>)
        requires
            1 <= num_buckets <= i64::MAX,
            start_time <= end_time,
            end_time - start_time <= i64::MAX,
        ensures
            r@.len() == num_buckets,
            r@ == timeline_buckets(
                events_in_range(self@.events, host_id, start_time, end_time),
                sessions_in_range(self@.sessions, start_time, end_time),
                start_time,
                end_time,
                num_buckets as int,
                now,
            ),
    {
        let ghost d: int = end_time - start_time;
        let ghost n: int = num_buckets as int;
        let width: i64 = (end_time - start_time) / (num_buckets as i64);
        proof {
            lemma_div_pos_is_pos(d, n);
            lemma_fundamental_div_mod(d, n);
            assert(n * (d / n) <= d);
            assert(width >= 0);
        }
        let events = self.get_host_events_in_range(host_id, start_time, end_time);
        let sessions = self.get_sessions_in_range(start_time, end_time);

        let mut buckets: Vec<TimelineBucketState> = Vec::new();
        let mut i: usize = 0;
        let mut bucket_start: i64 = start_time;
        while i < num_buckets
            invariant
                i <= num_buckets,
                1 <= num_buckets <= i64::MAX,
                start_time <= end_time,
                end_time - start_time <= i64::MAX,
                width == spec_bucket_width(start_time, end_time, num_buckets as int),
                width >= 0,
                (num_buckets as int) * (width as int) <= end_time - start_time,
                bucket_start == start_time + i * (width as int),
                events@ == events_in_range(self@.events, host_id, start_time, end_time),
                sessions@ == sessions_in_range(self@.sessions, start_time, end_time),
                buckets@.len() == i,
                forall|k: int|
                    0 <= k < i ==> buckets@[k] == bucket_state(
                        events@,
                        sessions@,
                        start_time + k * (width as int),
                        start_time + (k + 1) * (width as int),
                        now,
                    ),
            decreases num_buckets - i,
        {
            proof {
                lemma_mul_inequality(i as int + 1, num_buckets as int, width as int);
                assert((i as int + 1) * (width as int) <= (num_buckets as int) * (width as int));
                assert(bucket_start + width == start_time + (i as int + 1) * (width as int))
                    by (nonlinear_arith)
                    requires
                        bucket_start == start_time + i * (width as int),
                ;
            }
            let bucket_end = bucket_start + width;
            let state = self.determine_bucket_state(&events, &sessions, bucket_start, bucket_end, now);
            buckets.push(state);
            bucket_start = bucket_end;
            i += 1;
        }
        proof {
            assert(buckets@ =~= timeline_buckets(
                events@,
                sessions@,
                start_time,
                end_time,
                num_buckets as int,
                now,
            ));
        }
        buckets
    }
}

} // verus!
