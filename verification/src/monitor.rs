//! The monitor: startup crash reconciliation, host registration with
//! bootstrap events, per-tick classification of probe results, and the
//! in-memory status cache serving current-status queries.

use vstd::prelude::*;

use crate::store::can_append;
use crate::store::find_host;
use crate::store::follows_events;
use crate::store::follows_pings;
use crate::store::follows_sessions;
use crate::store::has_host;
use crate::store::host_matches;
use crate::store::lemma_find_host_first;
use crate::store::lemma_find_host_none;
use crate::store::lemma_find_host_some;
use crate::store::row_config;
use crate::store::Database;
use crate::timeline::events_in_range;
use crate::timeline::sessions_in_range;
use crate::timeline::timeline_buckets;
use crate::types::EventType;
use crate::types::HostConfig;
use crate::types::HostConfigV;
use crate::types::HostEvent;
use crate::types::HostRowV;
use crate::types::HostStatus;
use crate::types::HostStatusV;
use crate::types::HostTimeline;
use crate::types::HostTimelineV;
use crate::types::PingRecord;
use crate::types::PingResult;
use crate::types::ServerSession;
use crate::types::ShutdownType;
use crate::types::Status;

verus! {

/// What one step of host registration decided: which host the config
/// resolved to, whether the row was created by this step, and the
/// bootstrap event recorded for it.
pub ghost struct RegStep {
    pub host_id: i64,
    pub config: HostConfigV,
    pub is_new: bool,
    pub event: HostEvent,
}

/// Registration of a list of host configs against the identity table,
/// front to back: each config is upserted, and one bootstrap event is
/// recorded — `Offline` for a host created by this run (a known baseline),
/// `Unknown` for a host that already existed (its state while the monitor
/// was down was not observed).
pub open spec fn register_hosts_model(
    rows: Seq<HostRowV>,
    events: Seq<HostEvent>,
    cfgs: Seq<HostConfigV>,
    now: i64,
) -> (Seq<HostRowV>, Seq<HostEvent>, Seq<RegStep>)
    decreases cfgs.len(),
{
    if cfgs.len() == 0 {
        (rows, events, Seq::empty())
    } else {
        let c = cfgs.first();
        match find_host(rows, c) {
            Some(j) => {
                let id = rows[j].id;
                let ev = HostEvent {
                    id: (events.len() + 1) as i64,
                    host_id: id,
                    event_type: EventType::Unknown,
                    timestamp: now,
                };
                let step = RegStep { host_id: id, config: c, is_new: false, event: ev };
                let rest = register_hosts_model(rows, events.push(ev), cfgs.drop_first(), now);
                (rest.0, rest.1, seq![step] + rest.2)
            },
            None => {
                let id = (rows.len() + 1) as i64;
                let row = HostRowV {
                    id,
                    hostname: c.hostname,
                    ip_address: c.ip_address,
                    created_at: now,
                    first_inserted: None,
                };
                let ev = HostEvent {
                    id: (events.len() + 1) as i64,
                    host_id: id,
                    event_type: EventType::Offline,
                    timestamp: now,
                };
                let step = RegStep { host_id: id, config: c, is_new: true, event: ev };
                let rest = register_hosts_model(
                    rows.push(row),
                    events.push(ev),
                    cfgs.drop_first(),
                    now,
                );
                (rest.0, rest.1, seq![step] + rest.2)
            },
        }
    }
}

/// The session log after startup reconciliation: an open last session is
/// closed as `Crashed` at the last recorded ping timestamp, or as
/// `Unknown` at its own start when no ping was ever recorded.
pub open spec fn reconciled_sessions(
    sessions: Seq<ServerSession>,
    pings: Seq<PingRecord>,
    now: i64,
) -> Seq<ServerSession> {
    if sessions.len() == 0 || sessions.last().stopped_at is Some {
        sessions
    } else if pings.len() > 0 {
        sessions.update(
            sessions.len() - 1,
            ServerSession {
                stopped_at: Some(pings.last().timestamp),
                shutdown_type: Some(ShutdownType::Crashed),
                ..sessions.last()
            },
        )
    } else {
        sessions.update(
            sessions.len() - 1,
            ServerSession {
                stopped_at: Some(sessions.last().started_at),
                shutdown_type: Some(ShutdownType::Unknown),
                ..sessions.last()
            },
        )
    }
}

/// A row present before registration stays present when a row is added.
proof fn lemma_find_host_push_preserves(rows: Seq<HostRowV>, r: HostRowV, c: HostConfigV)
    requires
        find_host(rows, c) is Some,
    ensures
        find_host(rows.push(r), c) is Some,
{
    lemma_find_host_some(rows, c);
    let j = find_host(rows, c)->0;
    assert(rows.push(r)[j] == rows[j]);
    assert(forall|k: int| 0 <= k < j ==> rows.push(r)[k] == rows[k]);
    lemma_find_host_first(rows.push(r), c, j);
}

/// Registration resolves every config, in order.
pub proof fn lemma_register_steps_len(
    rows: Seq<HostRowV>,
    events: Seq<HostEvent>,
    cfgs: Seq<HostConfigV>,
    now: i64,
)
    ensures
        register_hosts_model(rows, events, cfgs, now).2.len() == cfgs.len(),
        forall|k: int|
            0 <= k < cfgs.len() ==> (#[trigger] register_hosts_model(
                rows,
                events,
                cfgs,
                now,
            ).2[k]).config == cfgs[k],
    decreases cfgs.len(),
{
    if cfgs.len() > 0 {
        let c = cfgs.first();
        match find_host(rows, c) {
            Some(j) => {
                let ev = HostEvent {
                    id: (events.len() + 1) as i64,
                    host_id: rows[j].id,
                    event_type: EventType::Unknown,
                    timestamp: now,
                };
                lemma_register_steps_len(rows, events.push(ev), cfgs.drop_first(), now);
            },
            None => {
                let id = (rows.len() + 1) as i64;
                let row = HostRowV {
                    id,
                    hostname: c.hostname,
                    ip_address: c.ip_address,
                    created_at: now,
                    first_inserted: None,
                };
                let ev = HostEvent {
                    id: (events.len() + 1) as i64,
                    host_id: id,
                    event_type: EventType::Offline,
                    timestamp: now,
                };
                lemma_register_steps_len(rows.push(row), events.push(ev), cfgs.drop_first(), now);
            },
        }
    }
}

/// The bootstrap event of every registration step matches its novelty:
/// `Offline` exactly for a host created by the step, `Unknown` exactly for
/// a host that already existed.
pub proof fn lemma_bootstrap_event_kind(
    rows: Seq<HostRowV>,
    events: Seq<HostEvent>,
    cfgs: Seq<HostConfigV>,
    now: i64,
    k: int,
)
    requires
        0 <= k < cfgs.len(),
    ensures
        ({
            let steps = register_hosts_model(rows, events, cfgs, now).2;
            &&& steps[k].event.event_type == if steps[k].is_new {
                EventType::Offline
            } else {
                EventType::Unknown
            }
            &&& steps[k].event.host_id == steps[k].host_id
            &&& steps[k].event.timestamp == now
        }),
    decreases cfgs.len(),
{
    lemma_register_steps_len(rows, events, cfgs, now);
    if k > 0 {
        let c = cfgs.first();
        match find_host(rows, c) {
            Some(j) => {
                let ev = HostEvent {
                    id: (events.len() + 1) as i64,
                    host_id: rows[j].id,
                    event_type: EventType::Unknown,
                    timestamp: now,
                };
                lemma_bootstrap_event_kind(rows, events.push(ev), cfgs.drop_first(), now, k - 1);
            },
            None => {
                let id = (rows.len() + 1) as i64;
                let row = HostRowV {
                    id,
                    hostname: c.hostname,
                    ip_address: c.ip_address,
                    created_at: now,
                    first_inserted: None,
                };
                let ev = HostEvent {
                    id: (events.len() + 1) as i64,
                    host_id: id,
                    event_type: EventType::Offline,
                    timestamp: now,
                };
                lemma_bootstrap_event_kind(
                    rows.push(row),
                    events.push(ev),
                    cfgs.drop_first(),
                    now,
                    k - 1,
                );
            },
        }
    }
}

/// Registration only appends to the event log: what was recorded before
/// stays, in place.
pub proof fn lemma_register_appends(
    rows: Seq<HostRowV>,
    events: Seq<HostEvent>,
    cfgs: Seq<HostConfigV>,
    now: i64,
)
    ensures
        register_hosts_model(rows, events, cfgs, now).1.len() >= events.len(),
        forall|q: int|
            0 <= q < events.len() ==> register_hosts_model(rows, events, cfgs, now).1[q]
                == events[q],
    decreases cfgs.len(),
{
    if cfgs.len() > 0 {
        let c = cfgs.first();
        match find_host(rows, c) {
            Some(j) => {
                let ev = HostEvent {
                    id: (events.len() + 1) as i64,
                    host_id: rows[j].id,
                    event_type: EventType::Unknown,
                    timestamp: now,
                };
                lemma_register_appends(rows, events.push(ev), cfgs.drop_first(), now);
                let rest = register_hosts_model(rows, events.push(ev), cfgs.drop_first(), now);
                assert(register_hosts_model(rows, events, cfgs, now).1 == rest.1);
                assert(forall|q: int|
                    0 <= q < events.len() ==> #[trigger] rest.1[q] == events.push(ev)[q]
                        && events.push(ev)[q] == events[q]);
            },
            None => {
                let id = (rows.len() + 1) as i64;
                let row = HostRowV {
                    id,
                    hostname: c.hostname,
                    ip_address: c.ip_address,
                    created_at: now,
                    first_inserted: None,
                };
                let ev = HostEvent {
                    id: (events.len() + 1) as i64,
                    host_id: id,
                    event_type: EventType::Offline,
                    timestamp: now,
                };
                lemma_register_appends(rows.push(row), events.push(ev), cfgs.drop_first(), now);
                let rest = register_hosts_model(
                    rows.push(row),
                    events.push(ev),
                    cfgs.drop_first(),
                    now,
                );
                assert(register_hosts_model(rows, events, cfgs, now).1 == rest.1);
                assert(forall|q: int|
                    0 <= q < events.len() ==> #[trigger] rest.1[q] == events.push(ev)[q]
                        && events.push(ev)[q] == events[q]);
            },
        }
    }
}

/// A never-before-seen host's first recorded event is `Offline`, never
/// `Unknown`: its step creates the row, records an `Offline` bootstrap
/// event, and no earlier entry of the final log carries its host id.
///
/// The hypotheses say what "never before seen" means: no row matches the
/// config, no earlier config in the list repeats it, and — as the store's
/// foreign-key discipline guarantees — every prior event belongs to a
/// host that already had a row.
pub proof fn lemma_new_host_first_event_offline(
    rows: Seq<HostRowV>,
    events: Seq<HostEvent>,
    cfgs: Seq<HostConfigV>,
    now: i64,
    k: int,
)
    requires
        0 <= k < cfgs.len(),
        rows.len() + cfgs.len() < i64::MAX,
        forall|i: int| 0 <= i < rows.len() ==> (#[trigger] rows[i].id) as int <= rows.len(),
        forall|t: int| 0 <= t < events.len() ==> (#[trigger] events[t].host_id) as int
            <= rows.len(),
        find_host(rows, cfgs[k]) is None,
        forall|j: int| 0 <= j < k ==> cfgs[j] != cfgs[k],
    ensures
        ({
            let reg = register_hosts_model(rows, events, cfgs, now);
            let step = reg.2[k];
            &&& step.is_new
            &&& step.event.event_type == EventType::Offline
            &&& exists|p: int|
                0 <= p < reg.1.len() && #[trigger] reg.1[p] == step.event && (forall|q: int|
                    0 <= q < p ==> (#[trigger] reg.1[q]).host_id != step.host_id)
        }),
    decreases cfgs.len(),
{
    lemma_register_steps_len(rows, events, cfgs, now);
    lemma_unseen_host_is_new(rows, events, cfgs, now, k);
    let c = cfgs.first();
    let reg = register_hosts_model(rows, events, cfgs, now);
    if k == 0 {
        let id = (rows.len() + 1) as i64;
        let row = HostRowV {
            id,
            hostname: c.hostname,
            ip_address: c.ip_address,
            created_at: now,
            first_inserted: None,
        };
        let ev = HostEvent {
            id: (events.len() + 1) as i64,
            host_id: id,
            event_type: EventType::Offline,
            timestamp: now,
        };
        lemma_register_appends(rows.push(row), events.push(ev), cfgs.drop_first(), now);
        let rest = register_hosts_model(rows.push(row), events.push(ev), cfgs.drop_first(), now);
        let p = events.len() as int;
        assert(reg.1 == rest.1);
        assert(reg.1[p] == events.push(ev)[p]);
        assert(reg.2[k].event == ev);
        assert forall|q: int| 0 <= q < p implies (#[trigger] reg.1[q]).host_id != ev.host_id by {
            assert(rest.1[q] == events.push(ev)[q]);
            assert(reg.1[q] == events[q]);
            assert((events[q].host_id) as int <= rows.len());
        }
        assert(0 <= p < reg.1.len() && reg.1[p] == reg.2[k].event && (forall|q: int|
            0 <= q < p ==> (#[trigger] reg.1[q]).host_id != reg.2[k].host_id));
    } else {
        assert(cfgs.drop_first()[k - 1] == cfgs[k]);
        assert(forall|j: int| 0 <= j < k - 1 ==> cfgs.drop_first()[j] == cfgs[j + 1]);
        match find_host(rows, c) {
            Some(j) => {
                lemma_find_host_some(rows, c);
                let ev = HostEvent {
                    id: (events.len() + 1) as i64,
                    host_id: rows[j].id,
                    event_type: EventType::Unknown,
                    timestamp: now,
                };
                assert(forall|t: int|
                    0 <= t < events.push(ev).len() ==> (#[trigger] events.push(
                        ev,
                    )[t].host_id) as int <= rows.len());
                lemma_new_host_first_event_offline(
                    rows,
                    events.push(ev),
                    cfgs.drop_first(),
                    now,
                    k - 1,
                );
                let rest = register_hosts_model(rows, events.push(ev), cfgs.drop_first(), now);
                assert(reg.2[k] == rest.2[k - 1]);
            },
            None => {
                let id = (rows.len() + 1) as i64;
                let row = HostRowV {
                    id,
                    hostname: c.hostname,
                    ip_address: c.ip_address,
                    created_at: now,
                    first_inserted: None,
                };
                let ev = HostEvent {
                    id: (events.len() + 1) as i64,
                    host_id: id,
                    event_type: EventType::Offline,
                    timestamp: now,
                };
                lemma_find_host_some(rows, cfgs[k]);
                assert(!host_matches(row, cfgs[k])) by {
                    if host_matches(row, cfgs[k]) {
                        assert(c == cfgs[k]);
                    }
                }
                assert(forall|i: int|
                    0 <= i < rows.push(row).len() ==> !host_matches(rows.push(row)[i], cfgs[k]));
                lemma_find_host_none(rows.push(row), cfgs[k]);
                assert(forall|i: int|
                    0 <= i < rows.push(row).len() ==> (#[trigger] rows.push(row)[i].id) as int
                        <= rows.push(row).len());
                assert(forall|t: int|
                    0 <= t < events.push(ev).len() ==> (#[trigger] events.push(
                        ev,
                    )[t].host_id) as int <= rows.push(row).len());
                lemma_new_host_first_event_offline(
                    rows.push(row),
                    events.push(ev),
                    cfgs.drop_first(),
                    now,
                    k - 1,
                );
                let rest = register_hosts_model(
                    rows.push(row),
                    events.push(ev),
                    cfgs.drop_first(),
                    now,
                );
                assert(reg.2[k] == rest.2[k - 1]);
            },
        }
    }
}

/// For a host already on record before a restart, the first event the
/// new run records for it is `Unknown`: its step's bootstrap event is
/// the earliest entry of the appended batch that carries its host id.
pub proof fn lemma_known_host_first_event_unknown(
    rows: Seq<HostRowV>,
    events: Seq<HostEvent>,
    cfgs: Seq<HostConfigV>,
    now: i64,
    k: int,
)
    requires
        0 <= k < cfgs.len(),
        rows.len() + cfgs.len() < i64::MAX,
        forall|i: int| 0 <= i < rows.len() ==> (#[trigger] rows[i].id) as int == i + 1,
        find_host(rows, cfgs[k]) is Some,
        forall|j: int| 0 <= j < k ==> cfgs[j] != cfgs[k],
    ensures
        ({
            let reg = register_hosts_model(rows, events, cfgs, now);
            let step = reg.2[k];
            &&& !step.is_new
            &&& step.event.event_type == EventType::Unknown
            &&& exists|p: int|
                events.len() <= p < reg.1.len() && #[trigger] reg.1[p] == step.event && (forall|
                    q: int,
                |
                    events.len() <= q < p ==> (#[trigger] reg.1[q]).host_id != step.host_id)
        }),
    decreases cfgs.len(),
{
    lemma_register_steps_len(rows, events, cfgs, now);
    lemma_known_host_not_new(rows, events, cfgs, now, k);
    lemma_find_host_some(rows, cfgs[k]);
    let j0 = find_host(rows, cfgs[k])->0;
    let c = cfgs.first();
    let reg = register_hosts_model(rows, events, cfgs, now);
    if k == 0 {
        let ev = HostEvent {
            id: (events.len() + 1) as i64,
            host_id: rows[j0].id,
            event_type: EventType::Unknown,
            timestamp: now,
        };
        lemma_register_appends(rows, events.push(ev), cfgs.drop_first(), now);
        let rest = register_hosts_model(rows, events.push(ev), cfgs.drop_first(), now);
        let p = events.len() as int;
        assert(reg.1 == rest.1);
        assert(rest.1[p] == events.push(ev)[p]);
        assert(reg.2[k].event == ev);
        assert(events.len() <= p < reg.1.len() && reg.1[p] == reg.2[k].event && (forall|q: int|
            events.len() <= q < p ==> (#[trigger] reg.1[q]).host_id != reg.2[k].host_id));
    } else {
        assert(cfgs.drop_first()[k - 1] == cfgs[k]);
        assert(forall|j: int| 0 <= j < k - 1 ==> cfgs.drop_first()[j] == cfgs[j + 1]);
        match find_host(rows, c) {
            Some(j1) => {
                lemma_find_host_some(rows, c);
                assert(j1 != j0) by {
                    if j1 == j0 {
                        assert(host_matches(rows[j0], c) && host_matches(rows[j0], cfgs[k]));
                        assert(c == cfgs[k]);
                    }
                }
                let ev0 = HostEvent {
                    id: (events.len() + 1) as i64,
                    host_id: rows[j1].id,
                    event_type: EventType::Unknown,
                    timestamp: now,
                };
                assert(rows[j1].id != rows[j0].id);
                lemma_known_host_first_event_unknown(
                    rows,
                    events.push(ev0),
                    cfgs.drop_first(),
                    now,
                    k - 1,
                );
                lemma_known_host_not_new(rows, events.push(ev0), cfgs.drop_first(), now, k - 1);
                let rest = register_hosts_model(rows, events.push(ev0), cfgs.drop_first(), now);
                assert(reg.1 == rest.1 && reg.2[k] == rest.2[k - 1]);
                assert(rest.2[k - 1].host_id == rows[j0].id);
                let p = choose|p: int|
                    events.push(ev0).len() <= p < rest.1.len() && #[trigger] rest.1[p]
                        == rest.2[k - 1].event && (forall|q: int|
                        events.push(ev0).len() <= q < p ==> (#[trigger] rest.1[q]).host_id
                            != rest.2[k - 1].host_id);
                lemma_register_appends(rows, events.push(ev0), cfgs.drop_first(), now);
                assert(rest.1[events.len() as int] == events.push(ev0)[events.len() as int]);
                assert forall|q: int| events.len() <= q < p implies (#[trigger] reg.1[q]).host_id
                    != reg.2[k].host_id by {
                    if q > events.len() {
                        assert(rest.1[q].host_id != rest.2[k - 1].host_id);
                    }
                }
                assert(events.len() <= p < reg.1.len() && reg.1[p] == reg.2[k].event);
            },
            None => {
                let id = (rows.len() + 1) as i64;
                let row = HostRowV {
                    id,
                    hostname: c.hostname,
                    ip_address: c.ip_address,
                    created_at: now,
                    first_inserted: None,
                };
                let ev0 = HostEvent {
                    id: (events.len() + 1) as i64,
                    host_id: id,
                    event_type: EventType::Offline,
                    timestamp: now,
                };
                lemma_find_host_push_preserves(rows, row, cfgs[k]);
                assert(rows.push(row)[j0] == rows[j0]);
                assert(forall|q: int| 0 <= q < j0 ==> rows.push(row)[q] == rows[q]);
                lemma_find_host_first(rows.push(row), cfgs[k], j0);
                assert(forall|i: int|
                    0 <= i < rows.push(row).len() ==> (#[trigger] rows.push(row)[i].id) as int == i
                        + 1);
                lemma_known_host_first_event_unknown(
                    rows.push(row),
                    events.push(ev0),
                    cfgs.drop_first(),
                    now,
                    k - 1,
                );
                lemma_known_host_not_new(
                    rows.push(row),
                    events.push(ev0),
                    cfgs.drop_first(),
                    now,
                    k - 1,
                );
                let rest = register_hosts_model(
                    rows.push(row),
                    events.push(ev0),
                    cfgs.drop_first(),
                    now,
                );
                assert(reg.1 == rest.1 && reg.2[k] == rest.2[k - 1]);
                assert(rest.2[k - 1].host_id == rows[j0].id);
                assert(ev0.host_id as int == rows.len() + 1);
                assert((rows[j0].id) as int == j0 + 1 <= rows.len());
                let p = choose|p: int|
                    events.push(ev0).len() <= p < rest.1.len() && #[trigger] rest.1[p]
                        == rest.2[k - 1].event && (forall|q: int|
                        events.push(ev0).len() <= q < p ==> (#[trigger] rest.1[q]).host_id
                            != rest.2[k - 1].host_id);
                lemma_register_appends(rows.push(row), events.push(ev0), cfgs.drop_first(), now);
                assert(rest.1[events.len() as int] == events.push(ev0)[events.len() as int]);
                assert forall|q: int| events.len() <= q < p implies (#[trigger] reg.1[q]).host_id
                    != reg.2[k].host_id by {
                    if q > events.len() {
                        assert(rest.1[q].host_id != rest.2[k - 1].host_id);
                    }
                }
                assert(events.len() <= p < reg.1.len() && reg.1[p] == reg.2[k].event);
            },
        }
    }
}

/// A host already present in the identity table before registration is
/// never treated as new, so its bootstrap event is `Unknown`.
pub proof fn lemma_known_host_not_new(
    rows: Seq<HostRowV>,
    events: Seq<HostEvent>,
    cfgs: Seq<HostConfigV>,
    now: i64,
    k: int,
)
    requires
        0 <= k < cfgs.len(),
        find_host(rows, cfgs[k]) is Some,
    ensures
        !register_hosts_model(rows, events, cfgs, now).2[k].is_new,
        register_hosts_model(rows, events, cfgs, now).2[k].event.event_type == EventType::Unknown,
        register_hosts_model(rows, events, cfgs, now).2[k].host_id == rows[find_host(
            rows,
            cfgs[k],
        )->0].id,
    decreases cfgs.len(),
{
    lemma_register_steps_len(rows, events, cfgs, now);
    lemma_bootstrap_event_kind(rows, events, cfgs, now, k);
    lemma_find_host_some(rows, cfgs[k]);
    let j0 = find_host(rows, cfgs[k])->0;
    if k > 0 {
        let c = cfgs.first();
        assert(cfgs.drop_first()[k - 1] == cfgs[k]);
        match find_host(rows, c) {
            Some(j) => {
                let ev = HostEvent {
                    id: (events.len() + 1) as i64,
                    host_id: rows[j].id,
                    event_type: EventType::Unknown,
                    timestamp: now,
                };
                lemma_known_host_not_new(rows, events.push(ev), cfgs.drop_first(), now, k - 1);
            },
            None => {
                let id = (rows.len() + 1) as i64;
                let row = HostRowV {
                    id,
                    hostname: c.hostname,
                    ip_address: c.ip_address,
                    created_at: now,
                    first_inserted: None,
                };
                let ev = HostEvent {
                    id: (events.len() + 1) as i64,
                    host_id: id,
                    event_type: EventType::Offline,
                    timestamp: now,
                };
                assert(rows.push(row)[j0] == rows[j0]);
                assert(forall|q: int| 0 <= q < j0 ==> rows.push(row)[q] == rows[q]);
                lemma_find_host_first(rows.push(row), cfgs[k], j0);
                lemma_known_host_not_new(
                    rows.push(row),
                    events.push(ev),
                    cfgs.drop_first(),
                    now,
                    k - 1,
                );
            },
        }
    }
}

/// A host seen for the first time — no matching row, and no earlier config
/// in the list with the same identity — is created by its step, so its
/// first recorded event is `Offline`, never `Unknown`.
pub proof fn lemma_unseen_host_is_new(
    rows: Seq<HostRowV>,
    events: Seq<HostEvent>,
    cfgs: Seq<HostConfigV>,
    now: i64,
    k: int,
)
    requires
        0 <= k < cfgs.len(),
        find_host(rows, cfgs[k]) is None,
        forall|j: int| 0 <= j < k ==> cfgs[j] != cfgs[k],
    ensures
        register_hosts_model(rows, events, cfgs, now).2[k].is_new,
        register_hosts_model(rows, events, cfgs, now).2[k].event.event_type == EventType::Offline,
    decreases cfgs.len(),
{
    lemma_register_steps_len(rows, events, cfgs, now);
    lemma_bootstrap_event_kind(rows, events, cfgs, now, k);
    if k > 0 {
        let c = cfgs.first();
        assert(cfgs.drop_first()[k - 1] == cfgs[k]);
        assert(forall|j: int| 0 <= j < k - 1 ==> cfgs.drop_first()[j] == cfgs[j + 1]);
        match find_host(rows, c) {
            Some(j) => {
                let ev = HostEvent {
                    id: (events.len() + 1) as i64,
                    host_id: rows[j].id,
                    event_type: EventType::Unknown,
                    timestamp: now,
                };
                lemma_unseen_host_is_new(rows, events.push(ev), cfgs.drop_first(), now, k - 1);
            },
            None => {
                let id = (rows.len() + 1) as i64;
                let row = HostRowV {
                    id,
                    hostname: c.hostname,
                    ip_address: c.ip_address,
                    created_at: now,
                    first_inserted: None,
                };
                let ev = HostEvent {
                    id: (events.len() + 1) as i64,
                    host_id: id,
                    event_type: EventType::Offline,
                    timestamp: now,
                };
                lemma_find_host_some(rows, cfgs[k]);
                assert(c != cfgs[k]);
                assert(row.hostname == c.hostname && row.ip_address == c.ip_address);
                assert(!host_matches(row, cfgs[k])) by {
                    if host_matches(row, cfgs[k]) {
                        assert(c == cfgs[k]);
                    }
                }
                assert(forall|i: int|
                    0 <= i < rows.push(row).len() ==> !host_matches(rows.push(row)[i], cfgs[k]));
                lemma_find_host_none(rows.push(row), cfgs[k]);
                lemma_unseen_host_is_new(
                    rows.push(row),
                    events.push(ev),
                    cfgs.drop_first(),
                    now,
                    k - 1,
                );
            },
        }
    }
}

/// Spec-level values of a status-cache sequence.
pub open spec fn status_views(m: Seq<HostStatus>) -> Seq<HostStatusV> {
    m.map_values(|s: HostStatus| s@)
}

/// Index of the first cache entry for this host id, if any.
pub open spec fn find_status(m: Seq<HostStatusV>, id: i64) -> Option<int>
    decreases m.len(),
{
    if m.len() == 0 {
        None
    } else if m[0].id == id {
        Some(0int)
    } else {
        match find_status(m.drop_first(), id) {
            Some(j) => Some(j + 1),
            None => None,
        }
    }
}

/// The event kind that a classification is recorded as.
pub open spec fn event_kind_of(s: Status) -> EventType {
    match s {
        Status::Online => EventType::Online,
        Status::Offline => EventType::Offline,
    }
}

/// What an answer of `find_status` means.
pub proof fn lemma_find_status_some(m: Seq<HostStatusV>, id: i64)
    ensures
        match find_status(m, id) {
            Some(j) => 0 <= j < m.len() && m[j].id == id && (forall|k: int|
                0 <= k < j ==> (#[trigger] m[k]).id != id),
            None => forall|k: int| 0 <= k < m.len() ==> (#[trigger] m[k]).id != id,
        },
    decreases m.len(),
{
    if m.len() > 0 && m[0].id != id {
        lemma_find_status_some(m.drop_first(), id);
        match find_status(m.drop_first(), id) {
            Some(j) => {
                assert(m[j + 1] == m.drop_first()[j]);
                assert forall|k: int| 0 <= k < j + 1 implies (#[trigger] m[k]).id != id by {
                    if k >= 1 {
                        assert(m[k] == m.drop_first()[k - 1]);
                    }
                }
            },
            None => {
                assert forall|k: int| 0 <= k < m.len() implies (#[trigger] m[k]).id != id by {
                    if k >= 1 {
                        assert(m[k] == m.drop_first()[k - 1]);
                    }
                }
            },
        }
    }
}

/// `find_status` returns exactly the first entry with the id.
pub proof fn lemma_find_status_first(m: Seq<HostStatusV>, id: i64, j: int)
    requires
        0 <= j < m.len(),
        m[j].id == id,
        forall|k: int| 0 <= k < j ==> (#[trigger] m[k]).id != id,
    ensures
        find_status(m, id) == Some(j),
    decreases m.len(),
{
    if j > 0 {
        assert(m.drop_first()[j - 1] == m[j]);
        assert(forall|k: int| 0 <= k < j - 1 ==> m.drop_first()[k] == m[k + 1]);
        lemma_find_status_first(m.drop_first(), id, j - 1);
    }
}

/// When no cache entry carries the id, `find_status` reports so.
pub proof fn lemma_find_status_none(m: Seq<HostStatusV>, id: i64)
    requires
        forall|k: int| 0 <= k < m.len() ==> (#[trigger] m[k]).id != id,
    ensures
        find_status(m, id) is None,
    decreases m.len(),
{
    if m.len() > 0 {
        assert(forall|k: int| 0 <= k < m.len() - 1 ==> m.drop_first()[k] == m[k + 1]);
        lemma_find_status_none(m.drop_first(), id);
    }
}

/// The monitor: the resolved host list, the in-memory status cache, and
/// the id of the session opened for this run.
pub struct Monitor {
    pub hosts: Vec<(i64, HostConfig)>,
    pub status_map: Vec<HostStatus>,
    pub session_id: i64,
}

impl Monitor {
    /// The status cache carries exactly one entry per resolved host, in
    /// the same order.
    pub open spec fn wf(&self) -> bool {
        &&& self.status_map@.len() == self.hosts@.len()
        &&& forall|i: int|
            0 <= i < self.hosts@.len() ==> (#[trigger] self.status_map@[i])@.id
                == self.hosts@[i].0
    }

    /// Start a monitor run: reconcile the previous session, open a new
    /// one, resolve the host set, record one bootstrap event per host, and
    /// prime the status cache.
    ///
    /// When `hosts` is empty the host set is loaded from the store and
    /// every host gets an `Unknown` bootstrap event (the monitor was down,
    /// their state was not observed). Otherwise each config is upserted:
    /// a host created by this call gets `Offline`, a host that already
    /// existed gets `Unknown`.
    ///
    /// Every host starts in the cache as `Offline` with zeroed counters,
    /// visible to status queries before any probe completes.
    pub fn new(db: &mut Database, hosts: Vec<HostConfig>, now: i64) -> (m: Monitor)
        requires
            old(db).wf(),
            follows_events(old(db)@.events, now),
            follows_sessions(old(db)@.sessions, now),
            old(db)@.sessions.len() < i64::MAX,
            old(db)@.events.len() + old(db)@.hosts.len() + hosts@.len() < i64::MAX,
            old(db)@.hosts.len() + hosts@.len() < i64::MAX,
        ensures
            m.wf(),
            final(db).wf(),
            m.session_id as int == old(db)@.sessions.len() + 1,
            final(db)@.pings == old(db)@.pings,
            final(db)@.sessions == reconciled_sessions(
                old(db)@.sessions,
                old(db)@.pings,
                now,
            ).push(
                (ServerSession {
                    id: (old(db)@.sessions.len() + 1) as i64,
                    started_at: now,
                    stopped_at: None,
                    shutdown_type: None,
                }),
            ),
            hosts@.len() == 0 ==> ({
                &&& final(db)@.hosts == old(db)@.hosts
                &&& final(db)@.events.len() == old(db)@.events.len() + old(db)@.hosts.len()
                &&& forall|t: int|
                    0 <= t < old(db)@.events.len() ==> final(db)@.events[t] == old(db)@.events[t]
                &&& forall|t: int|
                    0 <= t < old(db)@.hosts.len() ==> final(db)@.events[old(db)@.events.len() + t]
                        == (HostEvent {
                        id: (old(db)@.events.len() + t + 1) as i64,
                        host_id: old(db)@.hosts[t].id,
                        event_type: EventType::Unknown,
                        timestamp: now,
                    })
                &&& m.hosts@.len() == old(db)@.hosts.len()
                &&& forall|t: int|
                    0 <= t < old(db)@.hosts.len() ==> (#[trigger] m.hosts@[t]).0 == old(
                        db,
                    )@.hosts[t].id && m.hosts@[t].1@ == row_config(old(db)@.hosts[t])
            }),
            hosts@.len() > 0 ==> ({
                let reg = register_hosts_model(
                    old(db)@.hosts,
                    old(db)@.events,
                    hosts@.map_values(|h: HostConfig| h@),
                    now,
                );
                &&& final(db)@.hosts == reg.0
                &&& final(db)@.events == reg.1
                &&& m.hosts@.len() == reg.2.len()
                &&& forall|t: int|
                    0 <= t < reg.2.len() ==> (#[trigger] m.hosts@[t]).0 == reg.2[t].host_id
                        && m.hosts@[t].1@ == reg.2[t].config
            }),
            forall|t: int|
                0 <= t < m.hosts@.len() ==> (#[trigger] m.status_map@[t])@ == (HostStatusV {
                    id: m.hosts@[t].0,
                    hostname: m.hosts@[t].1@.hostname,
                    ip_address: m.hosts@[t].1@.ip_address,
                    status: Status::Offline,
                    last_check: now,
                    success_count: 0,
                    total_count: 0,
                    avg_latency_ms: None,
                }),
    {
        if let Some(s) = db.get_last_session() {
            if s.stopped_at.is_none() {
                match db.get_last_ping_timestamp() {
                    Some(t) => db.close_session(s.id, t, ShutdownType::Crashed),
                    None => db.close_session(s.id, s.started_at, ShutdownType::Unknown),
                }
                proof {
                    let n = old(db)@.sessions.len();
                    assert(forall|i: int|
                        0 <= i < n - 1 ==> (#[trigger] old(db)@.sessions[i]).id != s.id);
                    assert(db@.sessions =~= reconciled_sessions(
                        old(db)@.sessions,
                        old(db)@.pings,
                        now,
                    ));
                }
            }
        }
        proof {
            assert(db@.sessions =~= reconciled_sessions(old(db)@.sessions, old(db)@.pings, now));
        }
        let session_id = db.create_session(now);
        let ghost db1 = *db;

        let host_list: Vec<(i64, HostConfig)>;
        if hosts.len() == 0 {
            let existing = db.get_hosts();
            let n = existing.len();
            let mut k: usize = 0;
            while k < n
                invariant
                    k <= n,
                    n == existing@.len(),
                    db.wf(),
                    db1.wf(),
                    db@.hosts == db1@.hosts,
                    db@.pings == db1@.pings,
                    db@.sessions == db1@.sessions,
                    existing@.len() == db1@.hosts.len(),
                    forall|t: int|
                        0 <= t < existing@.len() ==> (#[trigger] existing@[t]).0
                            == db1@.hosts[t].id && existing@[t].1@ == row_config(db1@.hosts[t]),
                    db1@.events.len() + db1@.hosts.len() < i64::MAX,
                    db@.events.len() == db1@.events.len() + k,
                    forall|t: int|
                        0 <= t < db1@.events.len() ==> (#[trigger] db@.events[t])
                            == db1@.events[t],
                    forall|t: int|
                        0 <= t < k ==> (#[trigger] db@.events[db1@.events.len() + t])
                            == (HostEvent {
                            id: (db1@.events.len() + t + 1) as i64,
                            host_id: db1@.hosts[t].id,
                            event_type: EventType::Unknown,
                            timestamp: now,
                        }),
                    follows_events(db@.events, now),
                decreases n - k,
            {
                db.record_event(existing[k].0, EventType::Unknown, now);
                k += 1;
            }
            host_list = existing;
        } else {
            let ghost cfgs = hosts@.map_values(|h: HostConfig| h@);
            let mut pairs: Vec<(i64, HostConfig)> = Vec::new();
            let ghost mut steps: Seq<RegStep> = Seq::empty();
            proof {
                assert(cfgs.skip(0) =~= cfgs);
                let rest = register_hosts_model(db@.hosts, db@.events, cfgs, now);
                assert(steps + rest.2 =~= rest.2);
            }
            let n = hosts.len();
            let mut k: usize = 0;
            while k < n
                invariant
                    k <= n,
                    n == hosts@.len(),
                    db.wf(),
                    cfgs == hosts@.map_values(|h: HostConfig| h@),
                    db@.pings == db1@.pings,
                    db@.sessions == db1@.sessions,
                    db@.hosts.len() <= db1@.hosts.len() + k,
                    db@.events.len() == db1@.events.len() + k,
                    db1@.events.len() + db1@.hosts.len() + n < i64::MAX,
                    db1@.hosts.len() + n < i64::MAX,
                    follows_events(db@.events, now),
                    register_hosts_model(db1@.hosts, db1@.events, cfgs, now) == ({
                        let rest = register_hosts_model(
                            db@.hosts,
                            db@.events,
                            cfgs.skip(k as int),
                            now,
                        );
                        (rest.0, rest.1, steps + rest.2)
                    }),
                    steps.len() == k,
                    pairs@.len() == k,
                    forall|t: int|
                        0 <= t < k ==> (#[trigger] pairs@[t]).0 == steps[t].host_id
                            && pairs@[t].1@ == steps[t].config,
                decreases n - k,
            {
                let ghost rows0 = db@.hosts;
                let ghost events0 = db@.events;
                let config = &hosts[k];
                proof {
                    assert(cfgs[k as int] == hosts@[k as int]@);
                    assert(cfgs.skip(k as int).first() == cfgs[k as int]);
                    assert(cfgs.skip(k as int).drop_first() =~= cfgs.skip(k as int + 1));
                }
                let (id, is_new) = db.upsert_host(config, now);
                let kind = if is_new {
                    EventType::Offline
                } else {
                    EventType::Unknown
                };
                proof {
                    lemma_find_host_some(rows0, cfgs[k as int]);
                }
                db.record_event(id, kind, now);
                pairs.push(
                    (
                        id,
                        HostConfig {
                            hostname: config.hostname.clone(),
                            ip_address: config.ip_address.clone(),
                        },
                    ),
                );
                proof {
                    let ev = HostEvent {
                        id: (events0.len() + 1) as i64,
                        host_id: id,
                        event_type: kind,
                        timestamp: now,
                    };
                    let step = RegStep {
                        host_id: id,
                        config: cfgs[k as int],
                        is_new,
                        event: ev,
                    };
                    let rest_old = register_hosts_model(rows0, events0, cfgs.skip(k as int), now);
                    let rest_new = register_hosts_model(
                        db@.hosts,
                        db@.events,
                        cfgs.skip(k as int + 1),
                        now,
                    );
                    assert(db@.events == events0.push(ev));
                    assert(rest_old.0 == rest_new.0 && rest_old.1 == rest_new.1 && rest_old.2
                        == seq![step] + rest_new.2);
                    steps = steps.push(step);
                    assert(steps + rest_new.2 =~= (steps.drop_last() + (seq![step] + rest_new.2)));
                }
                k += 1;
            }
            proof {
                assert(cfgs.skip(n as int) =~= Seq::<HostConfigV>::empty());
                let rest = register_hosts_model(db@.hosts, db@.events, cfgs.skip(n as int), now);
                assert(rest.0 == db@.hosts && rest.1 == db@.events && rest.2
                    =~= Seq::<RegStep>::empty());
                assert(steps + rest.2 =~= steps);
            }
            host_list = pairs;
        }

        let mut status_map: Vec<HostStatus> = Vec::new();
        let n2 = host_list.len();
        let mut t: usize = 0;
        while t < n2
            invariant
                t <= n2,
                n2 == host_list@.len(),
                status_map@.len() == t,
                forall|u: int|
                    0 <= u < t ==> (#[trigger] status_map@[u])@ == (HostStatusV {
                        id: host_list@[u].0,
                        hostname: host_list@[u].1@.hostname,
                        ip_address: host_list@[u].1@.ip_address,
                        status: Status::Offline,
                        last_check: now,
                        success_count: 0,
                        total_count: 0,
                        avg_latency_ms: None,
                    }),
            decreases n2 - t,
        {
            let entry = HostStatus {
                id: host_list[t].0,
                hostname: host_list[t].1.hostname.clone(),
                ip_address: host_list[t].1.ip_address.clone(),
                status: Status::Offline,
                last_check: now,
                success_count: 0,
                total_count: 0,
                avg_latency_ms: None,
            };
            status_map.push(entry);
            t += 1;
        }

        Monitor { hosts: host_list, status_map, session_id }
    }

    /// A snapshot of the current status of every monitored host.
    pub fn get_status(&self) -> (r: Vec<HostStatus>)
        ensures
            r@.len() == self.status_map@.len(),
            forall|i: int| 0 <= i < r@.len() ==> (#[trigger] r@[i])@ == self.status_map@[i]@,
    {
        let mut r: Vec<HostStatus> = Vec::new();
        let n = self.status_map.len();
        let mut i: usize = 0;
        while i < n
            invariant
                i <= n,
                n == self.status_map@.len(),
                r@.len() == i,
                forall|k: int| 0 <= k < i ==> (#[trigger] r@[k])@ == self.status_map@[k]@,
            decreases n - i,
        {
            let s = &self.status_map[i];
            r.push(
                HostStatus {
                    id: s.id,
                    hostname: s.hostname.clone(),
                    ip_address: s.ip_address.clone(),
                    status: s.status,
                    last_check: s.last_check,
                    success_count: s.success_count,
                    total_count: s.total_count,
                    avg_latency_ms: s.avg_latency_ms,
                },
            );
            i += 1;
        }
        r
    }

    /// Close this run's session cooperatively, marking it `Clean`.
    pub fn shutdown(&self, db: &mut Database, now: i64)
        requires
            old(db).wf(),
        ensures
            final(db).wf(),
            final(db)@.hosts == old(db)@.hosts,
            final(db)@.events == old(db)@.events,
            final(db)@.pings == old(db)@.pings,
            final(db)@.sessions.len() == old(db)@.sessions.len(),
            forall|i: int|
                0 <= i < old(db)@.sessions.len() && old(db)@.sessions[i].id != self.session_id
                    ==> final(db)@.sessions[i] == old(db)@.sessions[i],
            forall|i: int|
                0 <= i < old(db)@.sessions.len() && old(db)@.sessions[i].id == self.session_id
                    ==> final(db)@.sessions[i] == (ServerSession {
                    stopped_at: Some(now),
                    shutdown_type: Some(ShutdownType::Clean),
                    ..old(db)@.sessions[i]
                }),
    {
        db.close_session(self.session_id, now, ShutdownType::Clean);
    }

    /// Bucketed availability history for every monitored host over the
    /// last `duration_hours` hours, ending `now`, split into
    /// `num_buckets` buckets, together with each host's cached status.
    pub fn get_timelines(
        &self,
        db: &Database,
        duration_hours: u32,
        num_buckets: usize,
        now: i64,
    ) -> (r: Vec<HostTimeline>)
        requires
            self.wf(),
            1 <= num_buckets,
            num_buckets <= u32::MAX,
            duration_hours * 3600 <= u32::MAX,
            now >= 0,
        ensures
            r@.len() == self.hosts@.len(),
            forall|i: int|
                0 <= i < r@.len() ==> (#[trigger] r@[i])@ == (HostTimelineV {
                    id: self.hosts@[i].0,
                    hostname: self.hosts@[i].1@.hostname,
                    ip_address: self.hosts@[i].1@.ip_address,
                    current_status: cached_status_or_offline(
                        status_views(self.status_map@),
                        self.hosts@[i].0,
                    ),
                    buckets: timeline_buckets(
                        events_in_range(
                            db@.events,
                            self.hosts@[i].0,
                            (now - duration_hours * 3600) as i64,
                            now,
                        ),
                        sessions_in_range(db@.sessions, (now - duration_hours * 3600) as i64, now),
                        (now - duration_hours * 3600) as i64,
                        now,
                        num_buckets as int,
                        now,
                    ),
                    bucket_duration_secs: (((duration_hours * 3600) as int) / (
                    num_buckets as int)) as u32,
                    start_time: (now - duration_hours * 3600) as i64,
                    end_time: now,
                }),
    {
        let duration_secs: u32 = duration_hours * 3600;
        let start_time: i64 = now - (duration_secs as i64);
        let end_time: i64 = now;
        let bucket_duration_secs: u32 = duration_secs / (num_buckets as u32);

        let mut r: Vec<HostTimeline> = Vec::new();
        let n = self.hosts.len();
        let mut i: usize = 0;
        while i < n
            invariant
                i <= n,
                n == self.hosts@.len(),
                self.wf(),
                1 <= num_buckets <= u32::MAX,
                duration_hours * 3600 <= u32::MAX,
                now >= 0,
                duration_secs == duration_hours * 3600,
                start_time == now - duration_secs,
                end_time == now,
                bucket_duration_secs == (((duration_hours * 3600) as int) / (
                num_buckets as int)) as u32,
                r@.len() == i,
                forall|k: int|
                    0 <= k < i ==> (#[trigger] r@[k])@ == (HostTimelineV {
                        id: self.hosts@[k].0,
                        hostname: self.hosts@[k].1@.hostname,
                        ip_address: self.hosts@[k].1@.ip_address,
                        current_status: cached_status_or_offline(
                            status_views(self.status_map@),
                            self.hosts@[k].0,
                        ),
                        buckets: timeline_buckets(
                            events_in_range(db@.events, self.hosts@[k].0, start_time, now),
                            sessions_in_range(db@.sessions, start_time, now),
                            start_time,
                            now,
                            num_buckets as int,
                            now,
                        ),
                        bucket_duration_secs: (((duration_hours * 3600) as int) / (
                        num_buckets as int)) as u32,
                        start_time: start_time,
                        end_time: now,
                    }),
            decreases n - i,
        {
            let host_id = self.hosts[i].0;
            let buckets = db.get_host_timeline(host_id, start_time, end_time, num_buckets, now);
            let current_status = match cached_status_index(&self.status_map, host_id) {
                Some(j) => self.status_map[j].status,
                None => Status::Offline,
            };
            r.push(
                HostTimeline {
                    id: host_id,
                    hostname: self.hosts[i].1.hostname.clone(),
                    ip_address: self.hosts[i].1.ip_address.clone(),
                    current_status,
                    buckets,
                    bucket_duration_secs,
                    start_time,
                    end_time,
                },
            );
            i += 1;
        }
        r
    }

    /// Apply one probe outcome for a host: classify it `Online` when any
    /// ping succeeded and `Offline` otherwise, record a transition event
    /// exactly when the classification differs from the cached status,
    /// always record the raw ping telemetry, stamp the host's first
    /// online time when it came online, and update the status cache.
    pub fn check_host(&mut self, db: &mut Database, host_id: i64, result: &PingResult)
        requires
            old(self).wf(),
            old(db).wf(),
            has_host(old(db)@.hosts, host_id),
            can_append(old(db)@.events),
            can_append(old(db)@.pings),
            follows_events(old(db)@.events, result.timestamp),
            follows_pings(old(db)@.pings, result.timestamp),
            exists|i: int|
                0 <= i < old(self).status_map@.len() && (#[trigger] old(
                    self,
                ).status_map@[i])@.id == host_id,
        ensures
            final(self).wf(),
            final(db).wf(),
            final(self).hosts == old(self).hosts,
            final(self).session_id == old(self).session_id,
            final(db)@.sessions == old(db)@.sessions,
            ({
                let new_status = if result.success_count > 0 {
                    Status::Online
                } else {
                    Status::Offline
                };
                let views = status_views(old(self).status_map@);
                let i = find_status(views, host_id)->0;
                let prev = views[i].status;
                &&& (prev != new_status ==> final(db)@.events == old(db)@.events.push(
                    (HostEvent {
                        id: (old(db)@.events.len() + 1) as i64,
                        host_id,
                        event_type: event_kind_of(new_status),
                        timestamp: result.timestamp,
                    }),
                ))
                &&& (prev == new_status ==> final(db)@.events == old(db)@.events)
                &&& final(db)@.pings == old(db)@.pings.push(
                    (PingRecord {
                        id: (old(db)@.pings.len() + 1) as i64,
                        host_id,
                        success_count: result.success_count,
                        total_count: result.total_count,
                        avg_latency_ms: result.avg_latency_ms,
                        timestamp: result.timestamp,
                    }),
                )
                &&& final(db)@.hosts.len() == old(db)@.hosts.len()
                &&& (new_status == Status::Offline ==> final(db)@.hosts == old(db)@.hosts)
                &&& (new_status == Status::Online ==> (forall|t: int|
                    0 <= t < old(db)@.hosts.len() && old(db)@.hosts[t].id != host_id
                        ==> final(db)@.hosts[t] == old(db)@.hosts[t]))
                &&& (new_status == Status::Online ==> (forall|t: int|
                    0 <= t < old(db)@.hosts.len() && old(db)@.hosts[t].id == host_id
                        ==> final(db)@.hosts[t] == (HostRowV {
                        first_inserted: match old(db)@.hosts[t].first_inserted {
                            Some(x) => Some(x),
                            None => Some(result.timestamp),
                        },
                        ..old(db)@.hosts[t]
                    })))
                &&& status_views(final(self).status_map@) == views.update(
                    i,
                    (HostStatusV {
                        id: host_id,
                        hostname: result@.hostname,
                        ip_address: result@.ip_address,
                        status: new_status,
                        last_check: result.timestamp,
                        success_count: result.success_count,
                        total_count: result.total_count,
                        avg_latency_ms: result.avg_latency_ms,
                    }),
                )
            }),
    {
        let new_status = if result.is_online() {
            Status::Online
        } else {
            Status::Offline
        };

        if new_status == Status::Online {
            db.set_first_inserted(host_id, result.timestamp);
        }

        proof {
            lemma_find_status_some(status_views(self.status_map@), host_id);
        }
        let i = match cached_status_index(&self.status_map, host_id) {
            Some(i) => i,
            None => {
                proof {
                    let views = status_views(self.status_map@);
                    let w = choose|t: int|
                        0 <= t < self.status_map@.len() && (#[trigger] self.status_map@[t])@.id
                            == host_id;
                    assert(views[w] == self.status_map@[w]@);
                }
                vstd::pervasive::unreached()
            },
        };
        let prev_status = self.status_map[i].status;

        if prev_status != new_status {
            let kind = EventType::from(new_status);
            proof {
                assert(kind == event_kind_of(new_status));
            }
            db.record_event(host_id, kind, result.timestamp);
        }

        db.record_ping_result(
            host_id,
            result.success_count,
            result.total_count,
            result.avg_latency_ms,
            result.timestamp,
        );

        let entry = HostStatus {
            id: host_id,
            hostname: result.hostname.clone(),
            ip_address: result.ip_address.clone(),
            status: new_status,
            last_check: result.timestamp,
            success_count: result.success_count,
            total_count: result.total_count,
            avg_latency_ms: result.avg_latency_ms,
        };
        self.status_map[i] = entry;
        proof {
            assert(status_views(self.status_map@) =~= status_views(old(self).status_map@).update(
                i as int,
                (HostStatusV {
                    id: host_id,
                    hostname: result@.hostname,
                    ip_address: result@.ip_address,
                    status: new_status,
                    last_check: result.timestamp,
                    success_count: result.success_count,
                    total_count: result.total_count,
                    avg_latency_ms: result.avg_latency_ms,
                }),
            ));
        }
    }
}

/// The cached status of a host, or `Offline` when it has no cache entry.
pub open spec fn cached_status_or_offline(views: Seq<HostStatusV>, id: i64) -> Status {
    match find_status(views, id) {
        Some(j) => views[j].status,
        None => Status::Offline,
    }
}

/// Index of the first cache entry with this host id, scanning in order.
fn cached_status_index(m: &Vec<HostStatus>, id: i64) -> (r: Option<usize>)
    ensures
        match r {
            Some(i) => 0 <= i < m@.len() && find_status(status_views(m@), id) == Some(i as int),
            None => find_status(status_views(m@), id) is None,
        },
{
    let n = m.len();
    let mut i: usize = 0;
    while i < n
        invariant
            i <= n,
            n == m@.len(),
            forall|k: int| 0 <= k < i ==> (#[trigger] m@[k])@.id != id,
        decreases n - i,
    {
        if m[i].id == id {
            proof {
                assert(forall|k: int|
                    0 <= k < i ==> status_views(m@)[k] == (#[trigger] m@[k])@);
                lemma_find_status_first(status_views(m@), id, i as int);
            }
            return Some(i);
        }
        i += 1;
    }
    proof {
        assert(forall|k: int| 0 <= k < n ==> status_views(m@)[k] == (#[trigger] m@[k])@);
        lemma_find_status_none(status_views(m@), id);
    }
    None
}

} // verus!
