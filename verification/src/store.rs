//! Append-only store backing the monitor: host identity table, host-event
//! log, ping-record log and server-session log.
//!
//! Rows are identified by 1-based ids assigned in insertion order, and the
//! event, ping and session logs are kept in (non-strictly) increasing
//! timestamp order, which is how the monitor produces them. `Database::wf`
//! captures these invariants; every mutating operation preserves them.

use vstd::prelude::*;

use crate::types::EventType;
use crate::types::HostConfig;
use crate::types::HostConfigV;
use crate::types::HostEvent;
use crate::types::HostRow;
use crate::types::HostRowV;
use crate::types::PingRecord;
use crate::types::ServerSession;
use crate::types::ShutdownType;

verus! {

/// In-memory image of the persisted monitoring data.
pub struct Database {
    pub hosts: Vec<HostRow>,
    pub events: Vec<HostEvent>,
    pub pings: Vec<PingRecord>,
    pub sessions: Vec<ServerSession>,
}

/// Spec-level value of a [`Database`].
#[verifier::ext_equal]
pub ghost struct DatabaseV {
    pub hosts: Seq<HostRowV>,
    pub events: Seq<HostEvent>,
    pub pings: Seq<PingRecord>,
    pub sessions: Seq<ServerSession>,
}

impl View for Database {
    type V = DatabaseV;

    open spec fn view(&self) -> DatabaseV {
        DatabaseV {
            hosts: self.hosts@.map_values(|r: HostRow| r@),
            events: self.events@,
            pings: self.pings@,
            sessions: self.sessions@,
        }
    }
}

/// The identity key of a host row, as a config value.
pub open spec fn row_config(r: HostRowV) -> HostConfigV {
    HostConfigV { hostname: r.hostname, ip_address: r.ip_address }
}

/// Does the row carry exactly this (hostname, ip_address) identity?
pub open spec fn host_matches(r: HostRowV, c: HostConfigV) -> bool {
    r.hostname == c.hostname && r.ip_address == c.ip_address
}

/// Index of the first row matching the config, if any.
pub open spec fn find_host(rows: Seq<HostRowV>, c: HostConfigV) -> Option<int>
    decreases rows.len(),
{
    if rows.len() == 0 {
        None
    } else if host_matches(rows[0], c) {
        Some(0int)
    } else {
        match find_host(rows.drop_first(), c) {
            Some(j) => Some(j + 1),
            None => None,
        }
    }
}

/// `find_host` returns exactly the first matching index.
pub proof fn lemma_find_host_first(rows: Seq<HostRowV>, c: HostConfigV, j: int)
    requires
        0 <= j < rows.len(),
        host_matches(rows[j], c),
        forall|k: int| 0 <= k < j ==> !host_matches(rows[k], c),
    ensures
        find_host(rows, c) == Some(j),
    decreases rows.len(),
{
    if j == 0 {
    } else {
        assert(!host_matches(rows[0], c));
        assert(rows.drop_first()[j - 1] == rows[j]);
        assert(forall|k: int| 0 <= k < j - 1 ==> rows.drop_first()[k] == rows[k + 1]);
        lemma_find_host_first(rows.drop_first(), c, j - 1);
    }
}

/// When no row matches, `find_host` reports so.
pub proof fn lemma_find_host_none(rows: Seq<HostRowV>, c: HostConfigV)
    requires
        forall|k: int| 0 <= k < rows.len() ==> !host_matches(rows[k], c),
    ensures
        find_host(rows, c) is None,
    decreases rows.len(),
{
    if rows.len() > 0 {
        assert(forall|k: int| 0 <= k < rows.len() - 1 ==> rows.drop_first()[k] == rows[k + 1]);
        lemma_find_host_none(rows.drop_first(), c);
    }
}

/// What a `Some` answer of `find_host` means.
pub proof fn lemma_find_host_some(rows: Seq<HostRowV>, c: HostConfigV)
    ensures
        match find_host(rows, c) {
            Some(j) => 0 <= j < rows.len() && host_matches(rows[j], c) && (forall|k: int|
                0 <= k < j ==> !host_matches(rows[k], c)),
            None => forall|k: int| 0 <= k < rows.len() ==> !host_matches(rows[k], c),
        },
    decreases rows.len(),
{
    if rows.len() > 0 && !host_matches(rows[0], c) {
        lemma_find_host_some(rows.drop_first(), c);
        assert(forall|k: int| 0 <= k < rows.len() - 1 ==> rows.drop_first()[k] == rows[k + 1]);
        match find_host(rows.drop_first(), c) {
            Some(j) => {
                assert(rows[j + 1] == rows.drop_first()[j]);
                assert forall|k: int| 0 <= k < j + 1 implies !host_matches(rows[k], c) by {
                    if k >= 1 {
                        assert(rows[k] == rows.drop_first()[k - 1]);
                    }
                }
            },
            None => {
                assert forall|k: int| 0 <= k < rows.len() implies !host_matches(rows[k], c) by {
                    if k >= 1 {
                        assert(rows[k] == rows.drop_first()[k - 1]);
                    }
                }
            },
        }
    }
}

/// What upserting a config does to the identity table: `(rows after, id,
/// is_new)`. An existing row is returned untouched; otherwise a fresh row
/// with the next id is appended.
pub open spec fn upsert_model(rows: Seq<HostRowV>, c: HostConfigV, now: i64) -> (
    Seq<HostRowV>,
    i64,
    bool,
) {
    match find_host(rows, c) {
        Some(j) => (rows, rows[j].id, false),
        None => (
            rows.push(
                HostRowV {
                    id: (rows.len() + 1) as i64,
                    hostname: c.hostname,
                    ip_address: c.ip_address,
                    created_at: now,
                    first_inserted: None,
                },
            ),
            (rows.len() + 1) as i64,
            true,
        ),
    }
}

/// Host identity is idempotent: registering the same `(hostname,
/// ip_address)` pair twice yields the same host id, and the second
/// registration adds no row.
pub proof fn lemma_upsert_idempotent(rows: Seq<HostRowV>, c: HostConfigV, now1: i64, now2: i64)
    ensures
        ({
            let first = upsert_model(rows, c, now1);
            let second = upsert_model(first.0, c, now2);
            &&& second.0 == first.0
            &&& second.1 == first.1
            &&& !second.2
        }),
{
    match find_host(rows, c) {
        Some(j) => {
        },
        None => {
            lemma_find_host_some(rows, c);
            let row = HostRowV {
                id: (rows.len() + 1) as i64,
                hostname: c.hostname,
                ip_address: c.ip_address,
                created_at: now1,
                first_inserted: None,
            };
            let pushed = rows.push(row);
            assert(host_matches(pushed[rows.len() as int], c));
            assert(forall|k: int| 0 <= k < rows.len() ==> pushed[k] == rows[k]);
            lemma_find_host_first(pushed, c, rows.len() as int);
        },
    }
}

/// The subsequence of `events` belonging to this host, oldest first.
pub open spec fn events_for_host(events: Seq<HostEvent>, host_id: i64) -> Seq<HostEvent>
    decreases events.len(),
{
    if events.len() == 0 {
        Seq::empty()
    } else {
        let init = events_for_host(events.drop_last(), host_id);
        if events.last().host_id == host_id {
            init.push(events.last())
        } else {
            init
        }
    }
}

/// The latest recorded event for this host, if any.
pub open spec fn last_event_for_host(events: Seq<HostEvent>, host_id: i64) -> Option<HostEvent>
    decreases events.len(),
{
    if events.len() == 0 {
        None
    } else if events.last().host_id == host_id {
        Some(events.last())
    } else {
        last_event_for_host(events.drop_last(), host_id)
    }
}

/// May one more row be appended without exhausting the id space?
pub open spec fn can_append<T>(s: Seq<T>) -> bool {
    s.len() < i64::MAX
}

/// Is `ts` no earlier than every timestamp already in the event log?
pub open spec fn follows_events(events: Seq<HostEvent>, ts: i64) -> bool {
    events.len() == 0 || events.last().timestamp <= ts
}

/// Is `ts` no earlier than every timestamp already in the ping log?
pub open spec fn follows_pings(pings: Seq<PingRecord>, ts: i64) -> bool {
    pings.len() == 0 || pings.last().timestamp <= ts
}

/// Is `ts` no earlier than the start of every session on record?
pub open spec fn follows_sessions(sessions: Seq<ServerSession>, ts: i64) -> bool {
    sessions.len() == 0 || sessions.last().started_at <= ts
}

/// Does the host table hold a row with this id?
pub open spec fn has_host(hosts: Seq<HostRowV>, id: i64) -> bool {
    1 <= id <= hosts.len()
}

impl Database {
    /// Well-formedness of the store: 1-based dense ids, unique host
    /// identities, timestamp-ordered logs, and at most the latest session
    /// still open.
    pub open spec fn wf(&self) -> bool {
        &&& forall|i: int| 0 <= i < self@.hosts.len() ==> (#[trigger] self@.hosts[i].id) as int == i
            + 1
        &&& forall|i: int, j: int|
            0 <= i < j < self@.hosts.len() ==> !host_matches(
                #[trigger] self@.hosts[i],
                row_config(#[trigger] self@.hosts[j]),
            )
        &&& forall|i: int| 0 <= i < self@.events.len() ==> (#[trigger] self@.events[i].id) as int
            == i + 1
        &&& forall|i: int, j: int|
            0 <= i <= j < self@.events.len() ==> (#[trigger] self@.events[i]).timestamp <= (
            #[trigger] self@.events[j]).timestamp
        &&& forall|i: int| 0 <= i < self@.pings.len() ==> (#[trigger] self@.pings[i].id) as int == i
            + 1
        &&& forall|i: int, j: int|
            0 <= i <= j < self@.pings.len() ==> (#[trigger] self@.pings[i]).timestamp <= (
            #[trigger] self@.pings[j]).timestamp
        &&& forall|i: int| 0 <= i < self@.sessions.len() ==> (#[trigger] self@.sessions[i].id)
            as int == i + 1
        &&& forall|i: int, j: int|
            0 <= i <= j < self@.sessions.len() ==> (#[trigger] self@.sessions[i]).started_at <= (
            #[trigger] self@.sessions[j]).started_at
        &&& forall|i: int|
            0 <= i < self@.sessions.len() - 1 ==> (#[trigger] self@.sessions[i]).stopped_at is Some
    }

    /// Create an empty store.
    pub fn new() -> (db: Database)
        ensures
            db.wf(),
            db@.hosts.len() == 0,
            db@.events.len() == 0,
            db@.pings.len() == 0,
            db@.sessions.len() == 0,
    {
        Database { hosts: Vec::new(), events: Vec::new(), pings: Vec::new(), sessions: Vec::new() }
    }

    /// Insert the host identity if it is not yet present.
    ///
    /// Returns `(host_id, is_new)`: the stable id of the row carrying this
    /// `(hostname, ip_address)` pair, and whether this call created it.
    /// Registering the same pair again returns the same id and changes
    /// nothing.
    pub fn upsert_host(&mut self, config: &HostConfig, now: i64) -> (r: (i64, bool))
        requires
            old(self).wf(),
            can_append(old(self)@.hosts),
        ensures
            final(self).wf(),
            final(self)@.events == old(self)@.events,
            final(self)@.pings == old(self)@.pings,
            final(self)@.sessions == old(self)@.sessions,
            final(self)@.hosts == upsert_model(old(self)@.hosts, config@, now).0,
            r.0 == upsert_model(old(self)@.hosts, config@, now).1,
            r.1 == upsert_model(old(self)@.hosts, config@, now).2,
    {
        let n = self.hosts.len();
        let mut i: usize = 0;
        while i < n
            invariant
                i <= n,
                n == self.hosts.len(),
                self@ == old(self)@,
                old(self).wf(),
                forall|k: int| 0 <= k < i ==> !host_matches(self@.hosts[k], config@),
            decreases n - i,
        {
            if self.hosts[i].hostname == config.hostname && self.hosts[i].ip_address
                == config.ip_address {
                proof {
                    lemma_find_host_first(self@.hosts, config@, i as int);
                }
                return (self.hosts[i].id, false);
            }
            i += 1;
        }
        proof {
            lemma_find_host_none(self@.hosts, config@);
        }
        let id = (n as i64) + 1;
        let row = HostRow {
            id,
            hostname: config.hostname.clone(),
            ip_address: config.ip_address.clone(),
            created_at: now,
            first_inserted: None,
        };
        self.hosts.push(row);
        proof {
            let pushed = HostRowV {
                id: (old(self)@.hosts.len() + 1) as i64,
                hostname: config@.hostname,
                ip_address: config@.ip_address,
                created_at: now,
                first_inserted: None,
            };
            assert(self@.hosts =~= old(self)@.hosts.push(pushed));
            assert(row_config(pushed) == config@);
            assert forall|a: int, b: int| 0 <= a < b < self@.hosts.len() implies !host_matches(
                self@.hosts[a],
                row_config(self@.hosts[b]),
            ) by {
                if b == n {
                    assert(self@.hosts[a] == old(self)@.hosts[a]);
                    assert(!host_matches(old(self)@.hosts[a], config@));
                }
            }
            assert(self.wf());
        }
        (id, true)
    }

    /// Record the first time a host was observed online; write-once.
    ///
    /// The row keeps its original `first_inserted` when one is already set,
    /// and nothing changes when no row has this id.
    pub fn set_first_inserted(&mut self, host_id: i64, timestamp: i64)
        requires
            old(self).wf(),
        ensures
            final(self).wf(),
            final(self)@.events == old(self)@.events,
            final(self)@.pings == old(self)@.pings,
            final(self)@.sessions == old(self)@.sessions,
            final(self)@.hosts.len() == old(self)@.hosts.len(),
            forall|i: int|
                0 <= i < old(self)@.hosts.len() && old(self)@.hosts[i].id != host_id
                    ==> final(self)@.hosts[i] == old(self)@.hosts[i],
            forall|i: int|
                0 <= i < old(self)@.hosts.len() && old(self)@.hosts[i].id == host_id
                    ==> final(self)@.hosts[i] == (HostRowV {
                    first_inserted: match old(self)@.hosts[i].first_inserted {
                        Some(t) => Some(t),
                        None => Some(timestamp),
                    },
                    ..old(self)@.hosts[i]
                }),
    {
        let n = self.hosts.len();
        let mut i: usize = 0;
        while i < n
            invariant
                i <= n,
                n == self.hosts.len(),
                self@.hosts.len() == old(self)@.hosts.len(),
                self@.events == old(self)@.events,
                self@.pings == old(self)@.pings,
                self@.sessions == old(self)@.sessions,
                old(self).wf(),
                forall|k: int|
                    0 <= k < n && old(self)@.hosts[k].id != host_id ==> self@.hosts[k] == old(
                        self,
                    )@.hosts[k],
                forall|k: int|
                    i <= k < n ==> self@.hosts[k] == old(self)@.hosts[k],
                forall|k: int|
                    0 <= k < i && old(self)@.hosts[k].id == host_id ==> self@.hosts[k]
                        == (HostRowV {
                        first_inserted: match old(self)@.hosts[k].first_inserted {
                            Some(t) => Some(t),
                            None => Some(timestamp),
                        },
                        ..old(self)@.hosts[k]
                    }),
            decreases n - i,
        {
            if self.hosts[i].id == host_id && self.hosts[i].first_inserted.is_none() {
                let row = HostRow {
                    id: self.hosts[i].id,
                    hostname: self.hosts[i].hostname.clone(),
                    ip_address: self.hosts[i].ip_address.clone(),
                    created_at: self.hosts[i].created_at,
                    first_inserted: Some(timestamp),
                };
                self.hosts[i] = row;
                proof {
                    assert(self@.hosts[i as int] == (HostRowV {
                        first_inserted: Some(timestamp),
                        ..old(self)@.hosts[i as int]
                    }));
                }
            }
            i += 1;
        }
        proof {
            assert(final(self).wf());
        }
    }

    /// Append one state-transition event for a host.
    pub fn record_event(&mut self, host_id: i64, event_type: EventType, timestamp: i64)
        requires
            old(self).wf(),
            has_host(old(self)@.hosts, host_id),
            can_append(old(self)@.events),
            follows_events(old(self)@.events, timestamp),
        ensures
            final(self).wf(),
            final(self)@.hosts == old(self)@.hosts,
            final(self)@.pings == old(self)@.pings,
            final(self)@.sessions == old(self)@.sessions,
            final(self)@.events == old(self)@.events.push(
                (HostEvent {
                    id: (old(self)@.events.len() + 1) as i64,
                    host_id,
                    event_type,
                    timestamp,
                }),
            ),
    {
        let id = (self.events.len() as i64) + 1;
        self.events.push(HostEvent { id, host_id, event_type, timestamp });
    }

    /// Append one ping record for a host.
    pub fn record_ping_result(
        &mut self,
        host_id: i64,
        success_count: u32,
        total_count: u32,
        avg_latency_ms: Option<u64>,
        timestamp: i64,
    )
        requires
            old(self).wf(),
            has_host(old(self)@.hosts, host_id),
            can_append(old(self)@.pings),
            follows_pings(old(self)@.pings, timestamp),
        ensures
            final(self).wf(),
            final(self)@.hosts == old(self)@.hosts,
            final(self)@.events == old(self)@.events,
            final(self)@.sessions == old(self)@.sessions,
            final(self)@.pings == old(self)@.pings.push(
                (PingRecord {
                    id: (old(self)@.pings.len() + 1) as i64,
                    host_id,
                    success_count,
                    total_count,
                    avg_latency_ms,
                    timestamp,
                }),
            ),
    {
        let id = (self.pings.len() as i64) + 1;
        self.pings.push(
            PingRecord { id, host_id, success_count, total_count, avg_latency_ms, timestamp },
        );
    }

    /// All hosts on record, as `(id, config)` pairs in id order.
    pub fn get_hosts(&self) -> (r: Vec<(i64, HostConfig)>)
        ensures
            r@.len() == self@.hosts.len(),
            forall|i: int|
                0 <= i < r@.len() ==> (#[trigger] r@[i]).0 == self@.hosts[i].id && r@[i].1@
                    == row_config(self@.hosts[i]),
    {
        let mut r: Vec<(i64, HostConfig)> = Vec::new();
        let n = self.hosts.len();
        let mut i: usize = 0;
        while i < n
            invariant
                i <= n,
                n == self.hosts.len(),
                r@.len() == i,
                forall|k: int|
                    0 <= k < i ==> (#[trigger] r@[k]).0 == self@.hosts[k].id && r@[k].1@
                        == row_config(self@.hosts[k]),
            decreases n - i,
        {
            let row = &self.hosts[i];
            let config = HostConfig {
                hostname: row.hostname.clone(),
                ip_address: row.ip_address.clone(),
            };
            r.push((row.id, config));
            proof {
                assert(r@[i as int].1@ == row_config(self@.hosts[i as int]));
            }
            i += 1;
        }
        r
    }

    /// The most recent event recorded for a host, if any.
    ///
    /// Because the log is kept in timestamp order, the last entry for the
    /// host is also its latest.
    pub fn get_last_event(&self, host_id: i64) -> (r: Option<HostEvent>)
        ensures
            r == last_event_for_host(self@.events, host_id),
    {
        let mut i: usize = self.events.len();
        proof {
            assert(self@.events.take(i as int) =~= self@.events);
        }
        while i > 0
            invariant
                i <= self.events.len(),
                last_event_for_host(self@.events, host_id) == last_event_for_host(
                    self@.events.take(i as int),
                    host_id,
                ),
            decreases i,
        {
            if self.events[i - 1].host_id == host_id {
                proof {
                    assert(self@.events.take(i as int).last() == self@.events[i - 1]);
                }
                return Some(self.events[i - 1]);
            }
            proof {
                assert(self@.events.take(i as int).drop_last() =~= self@.events.take(i - 1));
                assert(self@.events.take(i as int).last() == self@.events[i - 1]);
            }
            i -= 1;
        }
        proof {
            assert(self@.events.take(0) =~= Seq::<HostEvent>::empty());
        }
        None
    }

    /// Every event recorded for a host, newest first.
    pub fn get_host_events(&self, host_id: i64) -> (r: Vec<HostEvent>)
        ensures
            r@ == events_for_host(self@.events, host_id).reverse(),
    {
        let mut asc: Vec<HostEvent> = Vec::new();
        let n = self.events.len();
        let mut i: usize = 0;
        while i < n
            invariant
                i <= n,
                n == self.events.len(),
                asc@ == events_for_host(self@.events.take(i as int), host_id),
            decreases n - i,
        {
            proof {
                assert(self@.events.take(i + 1).drop_last() =~= self@.events.take(i as int));
                assert(self@.events.take(i + 1).last() == self@.events[i as int]);
            }
            if self.events[i].host_id == host_id {
                asc.push(self.events[i]);
            }
            i += 1;
        }
        proof {
            assert(self@.events.take(n as int) =~= self@.events);
        }
        let m = asc.len();
        let mut r: Vec<HostEvent> = Vec::new();
        let mut k: usize = 0;
        while k < m
            invariant
                k <= m,
                m == asc.len(),
                r@.len() == k,
                forall|idx: int| 0 <= idx < k ==> r@[idx] == asc@[m - 1 - idx],
            decreases m - k,
        {
            r.push(asc[m - 1 - k]);
            k += 1;
        }
        proof {
            assert(r@ =~= asc@.reverse());
        }
        r
    }

    /// Open a new session at `now`; returns its id.
    ///
    /// The previous session, if any, must already be closed: the monitor
    /// reconciles it before opening its own run.
    pub fn create_session(&mut self, now: i64) -> (r: i64)
        requires
            old(self).wf(),
            can_append(old(self)@.sessions),
            follows_sessions(old(self)@.sessions, now),
            old(self)@.sessions.len() == 0 || old(self)@.sessions.last().stopped_at is Some,
        ensures
            final(self).wf(),
            final(self)@.hosts == old(self)@.hosts,
            final(self)@.events == old(self)@.events,
            final(self)@.pings == old(self)@.pings,
            final(self)@.sessions == old(self)@.sessions.push(
                (ServerSession {
                    id: (old(self)@.sessions.len() + 1) as i64,
                    started_at: now,
                    stopped_at: None,
                    shutdown_type: None,
                }),
            ),
            r as int == old(self)@.sessions.len() + 1,
    {
        let id = (self.sessions.len() as i64) + 1;
        self.sessions.push(
            ServerSession { id, started_at: now, stopped_at: None, shutdown_type: None },
        );
        id
    }

    /// The most recently opened session, if any.
    pub fn get_last_session(&self) -> (r: Option<ServerSession>)
        ensures
            r == if self@.sessions.len() == 0 {
                Option::<ServerSession>::None
            } else {
                Some(self@.sessions.last())
            },
    {
        if self.sessions.len() == 0 {
            None
        } else {
            Some(self.sessions[self.sessions.len() - 1])
        }
    }

    /// Close the session with the given id, recording when and why it
    /// stopped. Sessions with other ids are untouched; a closed session
    /// written to again simply takes the new values, as the caller only
    /// ever closes a session once.
    pub fn close_session(&mut self, session_id: i64, stopped_at: i64, shutdown_type: ShutdownType)
        requires
            old(self).wf(),
        ensures
            final(self).wf(),
            final(self)@.hosts == old(self)@.hosts,
            final(self)@.events == old(self)@.events,
            final(self)@.pings == old(self)@.pings,
            final(self)@.sessions.len() == old(self)@.sessions.len(),
            forall|i: int|
                0 <= i < old(self)@.sessions.len() && old(self)@.sessions[i].id != session_id
                    ==> final(self)@.sessions[i] == old(self)@.sessions[i],
            forall|i: int|
                0 <= i < old(self)@.sessions.len() && old(self)@.sessions[i].id == session_id
                    ==> final(self)@.sessions[i] == (ServerSession {
                    stopped_at: Some(stopped_at),
                    shutdown_type: Some(shutdown_type),
                    ..old(self)@.sessions[i]
                }),
    {
        let n = self.sessions.len();
        let mut i: usize = 0;
        while i < n
            invariant
                i <= n,
                n == self.sessions.len(),
                self@.hosts == old(self)@.hosts,
                self@.events == old(self)@.events,
                self@.pings == old(self)@.pings,
                self@.sessions.len() == old(self)@.sessions.len(),
                old(self).wf(),
                forall|k: int|
                    0 <= k < n && old(self)@.sessions[k].id != session_id ==> self@.sessions[k]
                        == old(self)@.sessions[k],
                forall|k: int| i <= k < n ==> self@.sessions[k] == old(self)@.sessions[k],
                forall|k: int|
                    0 <= k < i && old(self)@.sessions[k].id == session_id ==> self@.sessions[k]
                        == (ServerSession {
                        stopped_at: Some(stopped_at),
                        shutdown_type: Some(shutdown_type),
                        ..old(self)@.sessions[k]
                    }),
            decreases n - i,
        {
            if self.sessions[i].id == session_id {
                let mut s = self.sessions[i];
                s.stopped_at = Some(stopped_at);
                s.shutdown_type = Some(shutdown_type);
                self.sessions[i] = s;
            }
            i += 1;
        }
        proof {
            assert(final(self).wf());
        }
    }

    /// Timestamp of the latest ping record across all hosts, if any.
    pub fn get_last_ping_timestamp(&self) -> (r: Option<i64>)
        requires
            self.wf(),
        ensures
            r == if self@.pings.len() == 0 {
                Option::<i64>::None
            } else {
                Some(self@.pings.last().timestamp)
            },
    {
        if self.pings.len() == 0 {
            None
        } else {
            Some(self.pings[self.pings.len() - 1].timestamp)
        }
    }

    /// Every session on record, in id order.
    pub fn get_all_sessions(&self) -> (r: Vec<ServerSession>)
        ensures
            r@ == self@.sessions,
    {
        let mut r: Vec<ServerSession> = Vec::new();
        let n = self.sessions.len();
        let mut i: usize = 0;
        while i < n
            invariant
                i <= n,
                n == self.sessions.len(),
                r@ =~= self@.sessions.take(i as int),
            decreases n - i,
        {
            r.push(self.sessions[i]);
            proof {
                assert(r@ =~= self@.sessions.take(i + 1));
            }
            i += 1;
        }
        proof {
            assert(r@ =~= self@.sessions);
        }
        r
    }
}

} // verus!
