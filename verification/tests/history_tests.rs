use std::collections::HashMap;
use std::collections::VecDeque;

use oxmon::history::get_visible_entries;
use oxmon::history::HistoryEntry;
use oxmon::history::Host;
use oxmon::history::HostResult;
use oxmon::history::HostStatus;
use oxmon::history::MAX_HISTORY_SIZE;

type HostHistory = HashMap<String, VecDeque<HistoryEntry>>;

#[test]
fn test_host_result_creation() {
    let host = Host {
        name: "test".to_string(),
        ip: "192.168.1.1".to_string(),
    };

    let result = HostResult {
        host: host.clone(),
        status: HostStatus::Up,
    };

    assert_eq!(result.host.name, "test");
    assert_eq!(result.host.ip, "192.168.1.1");
    assert_eq!(result.status, HostStatus::Up);
}

#[test]
fn test_host_status_enum() {
    let up = HostStatus::Up;
    let down = HostStatus::Down;

    assert_eq!(up, HostStatus::Up);
    assert_eq!(down, HostStatus::Down);
    assert_ne!(up, down);
}

#[test]
fn test_history_management() {
    let mut history: HostHistory = HashMap::new();
    let ip = "192.168.1.1".to_string();

    // Add some history
    let entry = history.entry(ip.clone()).or_default();
    entry.push_front(HistoryEntry::Status(HostStatus::Up));
    entry.push_front(HistoryEntry::Status(HostStatus::Down));
    entry.push_front(HistoryEntry::Status(HostStatus::Up));

    assert_eq!(history.get(&ip).unwrap().len(), 3);
    assert_eq!(
        *history.get(&ip).unwrap().front().unwrap(),
        HistoryEntry::Status(HostStatus::Up)
    );
}

#[test]
fn test_history_max_size() {
    let mut history: HostHistory = HashMap::new();
    let ip = "192.168.1.1".to_string();

    let entry = history.entry(ip.clone()).or_default();

    // Add more than MAX_HISTORY_SIZE items
    for i in 0..(MAX_HISTORY_SIZE + 50) {
        entry.push_front(HistoryEntry::Status(if i % 2 == 0 {
            HostStatus::Up
        } else {
            HostStatus::Down
        }));

        // Keep only MAX_HISTORY_SIZE (simulating the main loop logic)
        if entry.len() > MAX_HISTORY_SIZE {
            entry.pop_back();
        }
    }

    assert_eq!(history.get(&ip).unwrap().len(), MAX_HISTORY_SIZE);
}

#[test]
fn test_time_marker_in_history() {
    let mut history: HostHistory = HashMap::new();
    let ip = "192.168.1.1".to_string();

    let entry = history.entry(ip.clone()).or_default();
    entry.push_front(HistoryEntry::Status(HostStatus::Up));
    entry.push_front(HistoryEntry::TimeMarker);
    entry.push_front(HistoryEntry::Status(HostStatus::Down));

    assert_eq!(history.get(&ip).unwrap().len(), 3);
    assert_eq!(
        *history.get(&ip).unwrap().front().unwrap(),
        HistoryEntry::Status(HostStatus::Down)
    );
    assert_eq!(history.get(&ip).unwrap()[1], HistoryEntry::TimeMarker);
}

#[test]
fn test_scrolling_timeline_display() {
    // Create a history with known data pattern
    let mut history: VecDeque<HistoryEntry> = VecDeque::new();

    // Push oldest to newest (last push_front = position 0)
    history.push_front(HistoryEntry::Status(HostStatus::Down)); // oldest (position 9)
    history.push_front(HistoryEntry::Status(HostStatus::Down)); // position 8
    history.push_front(HistoryEntry::Status(HostStatus::Down)); // position 7
    history.push_front(HistoryEntry::TimeMarker); // position 6
    history.push_front(HistoryEntry::Status(HostStatus::Up)); // position 5
    history.push_front(HistoryEntry::Status(HostStatus::Up)); // position 4
    history.push_front(HistoryEntry::Status(HostStatus::Up)); // position 3
    history.push_front(HistoryEntry::TimeMarker); // position 2
    history.push_front(HistoryEntry::Status(HostStatus::Down)); // position 1
    history.push_front(HistoryEntry::Status(HostStatus::Down)); // position 0 (newest)

    // Convert to Vec as the function expects
    let history_vec: Vec<HistoryEntry> = history.iter().copied().collect();

    // Verify what we actually have
    assert_eq!(history_vec.len(), 10);
    // Position 0 should be newest (last push_front)
    assert_eq!(history_vec[0], HistoryEntry::Status(HostStatus::Down));
    assert_eq!(history_vec[1], HistoryEntry::Status(HostStatus::Down));
    assert_eq!(history_vec[2], HistoryEntry::TimeMarker);

    // Test with scroll_offset = 0 (live mode, show newest 5 entries)
    let visible = get_visible_entries(&history_vec, 0, 5);
    assert_eq!(visible.len(), 5);
    assert_eq!(visible[0], HistoryEntry::Status(HostStatus::Down)); // newest
    assert_eq!(visible[1], HistoryEntry::Status(HostStatus::Down));
    assert_eq!(visible[2], HistoryEntry::TimeMarker);
    assert_eq!(visible[3], HistoryEntry::Status(HostStatus::Up));
    assert_eq!(visible[4], HistoryEntry::Status(HostStatus::Up));

    // Test with scroll_offset = 3 (scrolled back 3 positions)
    let visible = get_visible_entries(&history_vec, 3, 5);
    assert_eq!(visible.len(), 5);
    assert_eq!(visible[0], HistoryEntry::Status(HostStatus::Up)); // now showing older data
    assert_eq!(visible[1], HistoryEntry::Status(HostStatus::Up));
    assert_eq!(visible[2], HistoryEntry::Status(HostStatus::Up));
    assert_eq!(visible[3], HistoryEntry::TimeMarker);
    assert_eq!(visible[4], HistoryEntry::Status(HostStatus::Down));

    // Test with scroll_offset = 7 (scrolled back to oldest data)
    let visible = get_visible_entries(&history_vec, 7, 5);
    assert_eq!(visible.len(), 3); // Only 3 entries left
    assert_eq!(visible[0], HistoryEntry::Status(HostStatus::Down));
    assert_eq!(visible[1], HistoryEntry::Status(HostStatus::Down));
    assert_eq!(visible[2], HistoryEntry::Status(HostStatus::Down));

    // Test with scroll_offset beyond available data
    let visible = get_visible_entries(&history_vec, 20, 5);
    assert_eq!(visible.len(), 0); // No data available
}

#[test]
fn test_scrolling_with_time_markers() {
    // Create history with alternating statuses and time markers
    let mut history: VecDeque<HistoryEntry> = VecDeque::new();

    for i in 0..10 {
        if i % 3 == 0 {
            history.push_front(HistoryEntry::TimeMarker);
        } else if i % 2 == 0 {
            history.push_front(HistoryEntry::Status(HostStatus::Up));
        } else {
            history.push_front(HistoryEntry::Status(HostStatus::Down));
        }
    }

    let history_vec: Vec<HistoryEntry> = history.iter().copied().collect();

    // Verify we can scroll and see time markers at different positions
    let visible_0 = get_visible_entries(&history_vec, 0, 3);
    let visible_3 = get_visible_entries(&history_vec, 3, 3);
    let visible_6 = get_visible_entries(&history_vec, 6, 3);

    // All should have different data
    assert_ne!(visible_0, visible_3);
    assert_ne!(visible_3, visible_6);

    // Verify time markers appear in expected positions
    let all_visible = get_visible_entries(&history_vec, 0, 10);
    let marker_count = all_visible
        .iter()
        .filter(|e| **e == HistoryEntry::TimeMarker)
        .count();
    assert_eq!(marker_count, 4); // 0, 3, 6, 9 = 4 markers
}
