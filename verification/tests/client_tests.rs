use oxmon::client::add_client_tags;
use oxmon::client::format_duration;
use oxmon::client::format_status;
use oxmon::client::truncate_str;
use oxmon::client::ClientId;
use oxmon::client::ClientInfo;
use oxmon::client::ClientStatus;
use oxmon::client::RegisteredClient;
use vstd::hash_map::StringHashMap;

fn client_info(hostname: &str, host_id: Option<&str>) -> ClientInfo {
    ClientInfo {
        hostname: hostname.to_string(),
        os: "linux".to_string(),
        ip_address: "192.168.1.100".to_string(),
        version: "1.0.0".to_string(),
        host_id: host_id.map(|h| h.to_string()),
        tags: StringHashMap::new(),
    }
}

#[test]
fn test_client_id_same_inputs_same_uuid() {
    let id1 = ClientId::from_client_data("testhost", "linux", None);
    let id2 = ClientId::from_client_data("testhost", "linux", None);
    assert_eq!(id1, id2, "Same hostname and OS should generate same UUID");
}

#[test]
fn test_client_id_different_hostname() {
    let id1 = ClientId::from_client_data("host1", "linux", None);
    let id2 = ClientId::from_client_data("host2", "linux", None);
    assert_ne!(id1, id2, "Different hostnames should generate different UUIDs");
}

#[test]
fn test_client_id_different_os() {
    let id1 = ClientId::from_client_data("testhost", "linux", None);
    let id2 = ClientId::from_client_data("testhost", "macos", None);
    assert_ne!(id1, id2, "Different OS should generate different UUIDs");
}

#[test]
fn test_client_id_different_host_id() {
    let id1 = ClientId::from_client_data("testhost", "linux", Some("abc123"));
    let id2 = ClientId::from_client_data("testhost", "linux", Some("def456"));
    assert_ne!(id1, id2, "Different host IDs should generate different UUIDs");
}

#[test]
fn test_client_id_with_and_without_host_id() {
    let id1 = ClientId::from_client_data("testhost", "linux", None);
    let id2 = ClientId::from_client_data("testhost", "linux", Some("abc123"));
    assert_ne!(
        id1, id2,
        "Same hostname/OS with/without host ID should generate different UUIDs"
    );
}

#[test]
fn test_client_id_is_valid_uuid_v5() {
    let id = ClientId::from_client_data("testhost", "linux", None);
    // UUID v5 has version bits set to 0101 (5)
    assert_eq!(
        uuid::Uuid::from_u128(id.0).get_version_num(),
        5,
        "Should be UUID v5"
    );
}

#[test]
fn test_client_id_matches_uuid_crate() {
    let id = ClientId::from_client_data("testhost", "linux", None);
    let expected =
        uuid::Uuid::new_v5(&uuid::Uuid::NAMESPACE_DNS, "testhost:linux".as_bytes()).as_u128();
    assert_eq!(id.0, expected);
}

#[test]
fn test_client_info_client_id_method() {
    let info = client_info("testhost", None);

    let id1 = info.client_id();
    let id2 = ClientId::from_client_data("testhost", "linux", None);
    assert_eq!(id1, id2, "client_id() method should produce correct ID");
}

#[test]
fn test_client_info_client_id_method_with_host_id() {
    let info = client_info("testhost", Some("abc123"));

    let id1 = info.client_id();
    let id2 = ClientId::from_client_data("testhost", "linux", Some("abc123"));
    assert_eq!(
        id1, id2,
        "client_id() method should produce correct ID with host_id"
    );
}

#[test]
fn test_add_client_tags() {
    let mut tags: StringHashMap<String> = StringHashMap::new();
    add_client_tags(&mut tags, "env".to_string(), "production".to_string());
    add_client_tags(&mut tags, "region".to_string(), "us-west".to_string());

    assert_eq!(tags.len(), 2);
    assert_eq!(tags.get("env"), Some(&"production".to_string()));
    assert_eq!(tags.get("region"), Some(&"us-west".to_string()));
}

#[test]
fn test_format_duration() {
    let now: i64 = 1_000_000;

    // Test seconds (online client)
    let client = RegisteredClient {
        client_id: ClientId::from_client_data("test", "linux", None),
        info: client_info("test", None),
        status: ClientStatus::Online,
        first_connected: now - 30,
        registered_at: now - 30,
        last_heartbeat: now,
    };
    assert_eq!(format_duration(&client, now), "30s");
}

#[test]
fn test_format_duration_offline_client() {
    let now: i64 = 1_000_000;

    // Offline client should always show 0s
    let client = RegisteredClient {
        client_id: ClientId::from_client_data("test", "linux", None),
        info: client_info("test", None),
        status: ClientStatus::Offline,
        first_connected: now - 600,
        registered_at: now - 300,
        last_heartbeat: now - 300,
    };
    assert_eq!(format_duration(&client, now), "0s");
}

#[test]
fn test_format_duration_scales() {
    let now: i64 = 10_000_000;
    let client = |secs: i64| RegisteredClient {
        client_id: ClientId::from_client_data("test", "linux", None),
        info: client_info("test", None),
        status: ClientStatus::Online,
        first_connected: now - secs,
        registered_at: now - secs,
        last_heartbeat: now,
    };
    assert_eq!(format_duration(&client(45), now), "45s");
    assert_eq!(format_duration(&client(120), now), "2m");
    assert_eq!(format_duration(&client(3_900), now), "1h 5m");
    assert_eq!(format_duration(&client(90_000), now), "1d 1h");
}

#[test]
fn test_format_status() {
    assert_eq!(format_status(ClientStatus::Online), "online");
    assert_eq!(format_status(ClientStatus::Offline), "offline");
}

#[test]
fn test_truncate_str() {
    assert_eq!(truncate_str("short", 10), "short");
    assert_eq!(truncate_str("verylongstring", 10), "verylon...");
    assert_eq!(truncate_str("exact", 5), "exact");
}

#[test]
fn test_output_width_80_characters() {
    // Test that header line is exactly 80 characters
    // Format: "{:<16} {:<15} {:<7} {:<19} {:<8} {:<10}"
    // 16 + 1 + 15 + 1 + 7 + 1 + 19 + 1 + 8 + 1 + 10 = 80
    let header = format!(
        "{:<16} {:<15} {:<7} {:<19} {:<8} {:<10}",
        "Hostname", "IP Address", "OS", "Connected", "Status", "Connected"
    );
    assert_eq!(
        header.len(),
        80,
        "Header line must be exactly 80 characters, got {}",
        header.len()
    );

    // Test that data rows are exactly 80 characters with max-length values
    let row = format!(
        "{:<16} {:<15} {:<7} {:<19} {:<8} {:<10}",
        "a".repeat(16),
        "b".repeat(15),
        "c".repeat(7),
        "2025-10-05 12:34:56", // 19 chars
        "offline",             // 7 chars (fits in 8)
        "999d 99h"             // 8 chars (fits in 10)
    );
    assert_eq!(
        row.len(),
        80,
        "Data row must be exactly 80 characters, got {}",
        row.len()
    );
}
