use oxmon::monitor::Monitor;
use oxmon::store::Database;
use oxmon::types::EventType;
use oxmon::types::HostConfig;
use oxmon::types::PingResult;
use oxmon::types::ShutdownType;
use oxmon::types::Status;
use oxmon::types::TimelineBucketState;

fn config(hostname: &str, ip: &str) -> HostConfig {
    HostConfig { hostname: hostname.to_string(), ip_address: ip.to_string() }
}

fn ping(hostname: &str, ip: &str, success_count: u32, timestamp: i64) -> PingResult {
    PingResult {
        hostname: hostname.to_string(),
        ip_address: ip.to_string(),
        success_count,
        total_count: 3,
        avg_latency_ms: if success_count > 0 { Some(15) } else { None },
        timestamp,
    }
}

#[test]
fn test_hosts_visible_immediately_on_startup() {
    let mut db = Database::new();

    let host1 = config("test-host-1", "192.168.1.1");
    let host2 = config("test-host-2", "192.168.1.2");

    // Create monitor with hosts
    let monitor = Monitor::new(&mut db, vec![host1, host2], 1_000);

    // IMMEDIATELY get status without waiting for any pings
    let status = monitor.get_status();

    // Should have 2 hosts visible right away
    assert_eq!(status.len(), 2);

    // Verify host details are present
    let hostnames: Vec<_> = status.iter().map(|h| h.hostname.as_str()).collect();
    assert!(hostnames.contains(&"test-host-1"));
    assert!(hostnames.contains(&"test-host-2"));

    // All hosts should have initial status (offline until first ping)
    for host in &status {
        assert_eq!(host.status, Status::Offline);
        assert_eq!(host.success_count, 0);
        assert_eq!(host.total_count, 0);
        assert_eq!(host.avg_latency_ms, None);
    }
}

#[test]
fn test_monitor_loads_hosts_from_database() {
    let mut db = Database::new();

    let host1 = config("test-host-1", "192.168.1.1");
    let host2 = config("test-host-2", "192.168.1.2");

    // First run: Create monitor with hosts from file
    let monitor1 = Monitor::new(&mut db, vec![host1, host2], 1_000);
    assert_eq!(monitor1.hosts.len(), 2);
    assert_eq!(monitor1.hosts[0].1.hostname, "test-host-1");
    assert_eq!(monitor1.hosts[1].1.hostname, "test-host-2");

    // Second run: Create monitor with no hosts (load from database)
    let monitor2 = Monitor::new(&mut db, Vec::new(), 2_000);
    assert_eq!(monitor2.hosts.len(), 2);
    assert_eq!(monitor2.hosts[0].1.hostname, "test-host-1");
    assert_eq!(monitor2.hosts[1].1.hostname, "test-host-2");

    // Verify host IDs match between runs
    assert_eq!(monitor1.hosts[0].0, monitor2.hosts[0].0);
    assert_eq!(monitor1.hosts[1].0, monitor2.hosts[1].0);
}

#[test]
fn test_monitor_updates_status_after_ping() {
    let mut db = Database::new();

    let host = config("localhost", "127.0.0.1");

    let mut monitor = Monitor::new(&mut db, vec![host], 1_000);
    let host_id = monitor.hosts[0].0;

    // Check initial status - should be offline
    let initial_status = monitor.get_status();
    assert_eq!(initial_status.len(), 1);
    assert_eq!(initial_status[0].status, Status::Offline);
    assert_eq!(initial_status[0].total_count, 0);

    // Apply one successful probe (what one check cycle does for this host)
    monitor.check_host(&mut db, host_id, &ping("localhost", "127.0.0.1", 3, 1_010));

    // Now status should be updated
    let updated_status = monitor.get_status();
    assert_eq!(updated_status.len(), 1);

    // Localhost should be online after ping
    assert_eq!(updated_status[0].status, Status::Online);
    assert_eq!(updated_status[0].total_count, 3); // 3 pings attempted
    assert!(updated_status[0].success_count > 0); // At least some succeeded
}

#[test]
fn test_server_restart_records_gap() {
    let mut db = Database::new();

    let host = config("test-host", "192.168.1.1");

    // First server session: Start server
    let monitor1 = Monitor::new(&mut db, vec![host.clone()], 1_000);
    let host_id = monitor1.hosts[0].0;

    // Verify first session was created
    let session1 = db.get_last_session().unwrap();
    assert!(session1.stopped_at.is_none()); // Still running
    assert_eq!(session1.id, 1);

    // Verify "offline" event was recorded for new host
    let events = db.get_host_events(host_id);
    assert_eq!(events.len(), 1);
    assert_eq!(events[0].event_type, EventType::Offline);

    // Simulate some activity (ping result)
    db.record_ping_result(host_id, 3, 3, Some(15), 1_010);
    db.record_event(host_id, EventType::Online, 1_010);

    // Drop monitor1 to simulate server crash (no clean shutdown)
    drop(monitor1);

    // Second server session: Restart server
    let monitor2 = Monitor::new(&mut db, Vec::new(), 2_000);
    assert_eq!(monitor2.hosts.len(), 1);

    // Verify old session was closed with "crashed" status
    let sessions = db.get_last_session().unwrap();
    assert_eq!(sessions.id, 2); // New session

    // Check that session 1 was closed
    let all_sessions = db.get_all_sessions();

    assert_eq!(all_sessions.len(), 2);
    assert_eq!(all_sessions[0].id, 1);
    assert_eq!(all_sessions[0].shutdown_type, Some(ShutdownType::Crashed));
    assert!(all_sessions[0].stopped_at.is_some());
    // The crash time estimate is the last recorded ping timestamp
    assert_eq!(all_sessions[0].stopped_at, Some(1_010));
    assert_eq!(all_sessions[1].id, 2);
    assert_eq!(all_sessions[1].shutdown_type, None); // Current session, still running
    assert!(all_sessions[1].stopped_at.is_none());

    // Verify "unknown" event was recorded again after restart
    let events = db.get_host_events(host_id);
    // Should have: offline (session 1 start, new host), online (activity), unknown (session 2 start)
    assert_eq!(events.len(), 3);
    assert_eq!(events[2].event_type, EventType::Offline); // oldest - new host
    assert_eq!(events[1].event_type, EventType::Online);
    assert_eq!(events[0].event_type, EventType::Unknown); // newest - restart
}

#[test]
fn test_new_host_gets_offline_event() {
    // New hosts should get an "offline" event, not "unknown"
    let mut db = Database::new();

    let host = config("new-host", "192.168.1.100");

    // First time seeing this host
    let monitor = Monitor::new(&mut db, vec![host], 1_000);
    let host_id = monitor.hosts[0].0;

    // Should have exactly one event: offline
    let events = db.get_host_events(host_id);
    assert_eq!(events.len(), 1);
    assert_eq!(
        events[0].event_type,
        EventType::Offline,
        "New host should start with offline event"
    );
}

#[test]
fn test_existing_host_gets_unknown_event_on_restart() {
    // Existing hosts should get "unknown" event on server restart
    let mut db = Database::new();

    let host = config("existing-host", "192.168.1.101");

    // First session - new host
    let monitor1 = Monitor::new(&mut db, vec![host.clone()], 1_000);
    let host_id = monitor1.hosts[0].0;

    // Simulate some activity
    db.record_event(host_id, EventType::Online, 1_010);

    drop(monitor1);

    // Second session - existing host
    let _monitor2 = Monitor::new(&mut db, vec![host], 2_000);

    // Should have: offline (initial), online (activity), unknown (restart)
    let events = db.get_host_events(host_id);
    assert_eq!(events.len(), 3);
    assert_eq!(events[2].event_type, EventType::Offline); // initial
    assert_eq!(events[1].event_type, EventType::Online); // activity
    assert_eq!(
        events[0].event_type,
        EventType::Unknown,
        "Existing host should get unknown event on restart"
    );
}

#[test]
fn test_unchanged_classification_emits_no_event() {
    // Across three ticks classified Online, Offline, Online, exactly two
    // new events are recorded: the middle tick changes state twice, the
    // repeat classification at the start emits nothing.
    let mut db = Database::new();

    let host = config("flappy", "192.168.1.7");
    let mut monitor = Monitor::new(&mut db, vec![host], 1_000);
    let host_id = monitor.hosts[0].0;

    // Bring the host online first so the next Online tick repeats it
    monitor.check_host(&mut db, host_id, &ping("flappy", "192.168.1.7", 3, 1_010));
    let baseline = db.get_host_events(host_id).len();

    monitor.check_host(&mut db, host_id, &ping("flappy", "192.168.1.7", 3, 1_020)); // Online again
    monitor.check_host(&mut db, host_id, &ping("flappy", "192.168.1.7", 0, 1_030)); // Offline
    monitor.check_host(&mut db, host_id, &ping("flappy", "192.168.1.7", 3, 1_040)); // Online

    let events = db.get_host_events(host_id);
    assert_eq!(events.len(), baseline + 2);
    assert_eq!(events[0].event_type, EventType::Online);
    assert_eq!(events[1].event_type, EventType::Offline);
}

#[test]
fn test_first_online_sets_first_inserted_once() {
    let mut db = Database::new();

    let host = config("riser", "192.168.1.9");
    let mut monitor = Monitor::new(&mut db, vec![host], 1_000);
    let host_id = monitor.hosts[0].0;

    monitor.check_host(&mut db, host_id, &ping("riser", "192.168.1.9", 3, 1_010));
    monitor.check_host(&mut db, host_id, &ping("riser", "192.168.1.9", 3, 1_020));

    // first_inserted keeps the timestamp of the first successful probe
    assert_eq!(db.hosts[0].first_inserted, Some(1_010));
}

#[test]
fn test_shutdown_closes_session_clean() {
    let mut db = Database::new();

    let host = config("test-host", "192.168.1.1");
    let monitor = Monitor::new(&mut db, vec![host], 1_000);

    monitor.shutdown(&mut db, 1_500);

    let sessions = db.get_all_sessions();
    assert_eq!(sessions.len(), 1);
    assert_eq!(sessions[0].stopped_at, Some(1_500));
    assert_eq!(sessions[0].shutdown_type, Some(ShutdownType::Clean));
}

#[test]
fn test_timeline_offline_tail() {
    // A host online at T with one Offline event at T+55 and nothing after:
    // buckets before the offline stay Online, the bucket covering T+55 and
    // every later bucket are Offline.
    let mut db = Database::new();

    let t: i64 = 10_000;
    let (host_id, _) = db.upsert_host(&config("test-host", "192.168.1.1"), t);
    db.create_session(t);
    db.record_event(host_id, EventType::Online, t);
    db.record_event(host_id, EventType::Offline, t + 55);

    let buckets = db.get_host_timeline(host_id, t, t + 120, 6, t + 130);

    assert_eq!(
        buckets,
        vec![
            TimelineBucketState::Online,  // [T, T+20): online event at T
            TimelineBucketState::Online,  // [T+20, T+40): inherited
            TimelineBucketState::Offline, // [T+40, T+60): offline at T+55
            TimelineBucketState::Offline, // inherited
            TimelineBucketState::Offline, // inherited
            TimelineBucketState::Offline, // inherited
        ]
    );
}

#[test]
fn test_get_timelines_shape() {
    let mut db = Database::new();

    let host = config("test-host", "192.168.1.1");
    let monitor = Monitor::new(&mut db, vec![host], 7_200);

    let timelines = monitor.get_timelines(&db, 2, 20, 7_200);
    assert_eq!(timelines.len(), 1);
    assert_eq!(timelines[0].id, monitor.hosts[0].0);
    assert_eq!(timelines[0].hostname, "test-host");
    assert_eq!(timelines[0].current_status, Status::Offline);
    assert_eq!(timelines[0].buckets.len(), 20);
    assert_eq!(timelines[0].bucket_duration_secs, 360);
    assert_eq!(timelines[0].start_time, 0);
    assert_eq!(timelines[0].end_time, 7_200);
}

#[test]
fn test_restart_with_no_pings_closes_session_unknown() {
    // A crashed run that never recorded a ping is closed at its own start
    // time with the Unknown shutdown type.
    let mut db = Database::new();

    let host = config("test-host", "192.168.1.1");
    let monitor1 = Monitor::new(&mut db, vec![host.clone()], 1_000);
    drop(monitor1);

    let _monitor2 = Monitor::new(&mut db, vec![host], 2_000);

    let sessions = db.get_all_sessions();
    assert_eq!(sessions.len(), 2);
    assert_eq!(sessions[0].stopped_at, Some(1_000));
    assert_eq!(sessions[0].shutdown_type, Some(ShutdownType::Unknown));
    assert!(sessions[1].stopped_at.is_none());
}
