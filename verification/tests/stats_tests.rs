use syslog_sniffer::stats::{HostTable, StatsTracker};

#[test]
fn test_stats_tracker() {
    let mut tracker = StatsTracker::new();
    assert!(tracker.is_empty());

    tracker.add_entry("host1".to_string(), "msg1".to_string());
    assert!(!tracker.is_empty());

    tracker.add_entry("host1".to_string(), "msg2".to_string());

    let summary = tracker.get_summary(10);
    assert_eq!(summary.hosts.len(), 1);
    assert_eq!(summary.hosts.get("host1").unwrap().count, 2);
    assert_eq!(summary.hosts.get("host1").unwrap().sample, "msg1");
}

#[test]
fn test_stats_tracker_default() {
    let tracker = StatsTracker::default();
    assert!(tracker.is_empty());
}

#[test]
fn test_stats_tracker_clear() {
    let mut tracker = StatsTracker::new();
    tracker.add_entry("host1".to_string(), "msg1".to_string());
    assert!(!tracker.is_empty());

    tracker.clear();
    assert!(tracker.is_empty());
    let summary = tracker.get_summary(10);
    assert!(summary.hosts.is_empty());
}

#[test]
fn first_sample_wins_whatever_the_count() {
    let mut tracker = StatsTracker::new();
    for i in 0..25u64 {
        tracker.add_entry("gateway".to_string(), format!("message {}", i));
    }
    let summary = tracker.get_summary(3);
    assert_eq!(summary.interval_seconds, 3);
    assert_eq!(summary.hosts.len(), 1);
    let stats = summary.hosts.get("gateway").unwrap();
    assert_eq!(stats.count, 25);
    assert_eq!(stats.sample, "message 0");
}

#[test]
fn hosts_are_counted_apart() {
    let mut tracker = StatsTracker::new();
    tracker.add_entry("a".to_string(), "a1".to_string());
    tracker.add_entry("b".to_string(), "b1".to_string());
    tracker.add_entry("a".to_string(), "a2".to_string());
    tracker.add_entry("Unknown".to_string(), "u1".to_string());
    let summary = tracker.get_summary(10);
    assert_eq!(summary.hosts.len(), 3);
    assert_eq!(summary.hosts.get("a").unwrap().count, 2);
    assert_eq!(summary.hosts.get("a").unwrap().sample, "a1");
    assert_eq!(summary.hosts.get("b").unwrap().count, 1);
    assert_eq!(summary.hosts.get("b").unwrap().sample, "b1");
    assert_eq!(summary.hosts.get("Unknown").unwrap().count, 1);
    assert!(summary.hosts.contains_key("b"));
    assert!(!summary.hosts.contains_key("c"));
    assert!(summary.hosts.get("c").is_none());
    let mut names = summary.hosts.hostnames();
    names.sort();
    assert_eq!(names, vec!["Unknown", "a", "b"]);
}

#[test]
fn summary_leaves_the_tracker_alone() {
    let mut tracker = StatsTracker::new();
    tracker.add_entry("host1".to_string(), "msg1".to_string());
    let first = tracker.get_summary(10);
    let second = tracker.get_summary(10);
    assert_eq!(first.interval_seconds, second.interval_seconds);
    assert_eq!(first.hosts.hostnames(), vec!["host1"]);
    assert_eq!(second.hosts.hostnames(), vec!["host1"]);
    assert_eq!(first.hosts.get("host1").unwrap().count, 1);
    assert_eq!(second.hosts.get("host1").unwrap().count, 1);
    assert_eq!(second.hosts.get("host1").unwrap().sample, "msg1");
    assert!(!tracker.is_empty());
}

#[test]
fn summary_is_an_independent_copy() {
    let mut tracker = StatsTracker::new();
    tracker.add_entry("host1".to_string(), "msg1".to_string());
    let summary = tracker.get_summary(10);
    tracker.add_entry("host1".to_string(), "msg2".to_string());
    tracker.add_entry("host2".to_string(), "msg3".to_string());
    assert_eq!(summary.hosts.len(), 1);
    assert_eq!(summary.hosts.get("host1").unwrap().count, 1);
    tracker.clear();
    assert_eq!(summary.hosts.len(), 1);
}

#[test]
fn a_new_window_starts_counting_afresh() {
    let mut tracker = StatsTracker::new();
    tracker.add_entry("host1".to_string(), "old".to_string());
    tracker.add_entry("host1".to_string(), "older".to_string());
    tracker.clear();
    tracker.add_entry("host1".to_string(), "new".to_string());
    let summary = tracker.get_summary(5);
    assert_eq!(summary.hosts.get("host1").unwrap().count, 1);
    assert_eq!(summary.hosts.get("host1").unwrap().sample, "new");
}

#[test]
fn host_table_on_its_own() {
    let mut table = HostTable::new();
    assert!(table.is_empty());
    assert_eq!(table.len(), 0);
    table.record("x".to_string(), "first".to_string());
    table.record("x".to_string(), "second".to_string());
    table.record("".to_string(), "empty name".to_string());
    assert_eq!(table.len(), 2);
    let copy = table.duplicate();
    table.clear();
    assert!(table.is_empty());
    assert_eq!(copy.len(), 2);
    assert_eq!(copy.get("x").unwrap().count, 2);
    assert_eq!(copy.get("x").unwrap().sample, "first");
    assert_eq!(copy.get("").unwrap().sample, "empty name");
}
