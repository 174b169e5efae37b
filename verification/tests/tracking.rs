use std::time::{Duration, SystemTime, UNIX_EPOCH};
use tallow_rust::patterns::{FilterGroup, PatternItem};
use tallow_rust::tracking::{is_whitelisted, IpState, IpTable, IpTracker};

fn create_tracker() -> IpTracker {
    IpTracker::new(1000, "/sbin/ipset".to_string(), 3600)
}

fn create_tracker_with_expiry(expires: i32) -> IpTracker {
    IpTracker::new(1000, "/sbin/ipset".to_string(), expires)
}

fn nanos(t: SystemTime) -> u64 {
    t.duration_since(UNIX_EPOCH).unwrap().as_nanos() as u64
}

fn args(v: &[&str]) -> Vec<String> {
    v.iter().map(|s| s.to_string()).collect()
}

#[test]
fn test_determine_is_ipv6() {
    assert!(IpTracker::determine_is_ipv6("::1"));
    assert!(IpTracker::determine_is_ipv6("2001:db8::1"));
    assert!(!IpTracker::determine_is_ipv6("127.0.0.1"));
    assert!(!IpTracker::determine_is_ipv6("192.168.1.1"));
}

#[test]
fn test_process_ip_new() {
    let mut tracker = create_tracker();
    let ip = "1.2.3.4".to_string();
    let now_before = SystemTime::now().duration_since(UNIX_EPOCH).unwrap().as_secs();

    tracker.process_ip_match(ip.clone(), 500, 0);

    let now_after = SystemTime::now().duration_since(UNIX_EPOCH).unwrap().as_secs();

    let state = tracker.tracked_ips.get(&ip).unwrap();
    assert_eq!(state.score, 500);
    assert!(!state.blocked);
    assert!(!state.is_ipv6);
    let state_last_seen_secs = state.last_seen / 1_000_000_000;
    assert!(state_last_seen_secs >= now_before && state_last_seen_secs <= now_after);
}

#[test]
fn test_process_ip_accumulate_score() {
    let mut tracker = create_tracker();
    let ip = "1.2.3.5".to_string();

    tracker.process_ip_match(ip.clone(), 300, 0);
    let state1 = tracker.tracked_ips.get(&ip).unwrap();
    assert_eq!(state1.score, 300);

    tracker.process_ip_match(ip.clone(), 400, 0);
    let state2 = tracker.tracked_ips.get(&ip).unwrap();
    assert_eq!(state2.score, 300 + 400);
    assert!((state2.score - 700).abs() < 1);
}

#[test]
fn test_process_ip_reaches_threshold_no_instant_block() {
    let mut tracker = create_tracker();
    let ip = "1.2.3.6".to_string();

    tracker.process_ip_match(ip.clone(), 500, 0);
    assert!(!tracker.tracked_ips.get(&ip).unwrap().blocked, "Should not be blocked yet");

    tracker.process_ip_match(ip.clone(), 600, 0);
    assert!(tracker.tracked_ips.get(&ip).unwrap().blocked, "Should be marked as blocked after reaching threshold");
}

#[test]
fn test_process_ip_already_blocked_score_increases_no_reblock_attempt() {
    let mut tracker = create_tracker();
    let ip = "1.2.3.10".to_string();

    tracker.process_ip_match(ip.clone(), 1500, 0);
    assert!(tracker.tracked_ips.get(&ip).unwrap().blocked);
    assert_eq!(tracker.tracked_ips.get(&ip).unwrap().score, 1500);

    tracker.process_ip_match(ip.clone(), 500, 0);
    assert!(tracker.tracked_ips.get(&ip).unwrap().blocked);
    assert_eq!(tracker.tracked_ips.get(&ip).unwrap().score, 2000);
}

#[test]
fn test_process_ip_instant_block() {
    let mut tracker = create_tracker();
    let ip = "1.2.3.7".to_string();

    tracker.process_ip_match(ip.clone(), 100, 300);
    assert!(tracker.tracked_ips.get(&ip).unwrap().blocked, "Should be marked as blocked due to instant_block");
    assert_eq!(tracker.tracked_ips.get(&ip).unwrap().score, 100);
}

#[test]
fn test_prune_unblocked_ip() {
    let mut tracker = create_tracker_with_expiry(5);
    let ip = "1.2.3.8".to_string();
    let old_time = nanos(SystemTime::now() - Duration::from_secs(10));

    tracker.tracked_ips.insert(ip.clone(), IpState { score: 100, last_seen: old_time, blocked: false, is_ipv6: false });

    assert!(tracker.tracked_ips.contains_key(&ip));
    tracker.prune();
    assert!(!tracker.tracked_ips.contains_key(&ip), "Unblocked IP should be pruned after expiry");
}

#[test]
fn test_prune_blocked_ip() {
    let mut tracker = create_tracker_with_expiry(5);
    let ip = "1.2.3.9".to_string();
    let old_time = nanos(SystemTime::now() - Duration::from_secs(10));

    tracker.tracked_ips.insert(ip.clone(), IpState { score: 1500, last_seen: old_time, blocked: true, is_ipv6: false });

    assert!(tracker.tracked_ips.contains_key(&ip));
    tracker.prune();
    assert!(!tracker.tracked_ips.contains_key(&ip), "Blocked IP should be pruned after expiry");
}

#[test]
fn test_prune_active_ip() {
    let mut tracker = create_tracker_with_expiry(3600);
    let ip = "1.2.3.10".to_string();
    let recent_time = nanos(SystemTime::now() - Duration::from_secs(60));

    tracker.tracked_ips.insert(ip.clone(), IpState { score: 200, last_seen: recent_time, blocked: false, is_ipv6: false });

    assert!(tracker.tracked_ips.contains_key(&ip));
    tracker.prune();
    assert!(tracker.tracked_ips.contains_key(&ip), "Active IP should not be pruned");
}

#[test]
fn test_prune_active_blocked_ip() {
    let mut tracker = create_tracker_with_expiry(3600);
    let ip = "1.2.3.11".to_string();
    let recent_time = nanos(SystemTime::now() - Duration::from_secs(60));

    tracker.tracked_ips.insert(ip.clone(), IpState { score: 1200, last_seen: recent_time, blocked: true, is_ipv6: false });

    assert!(tracker.tracked_ips.contains_key(&ip));
    tracker.prune();
    assert!(tracker.tracked_ips.contains_key(&ip), "Active blocked IP should not be pruned based on activity");
}

#[test]
fn threshold_crossing_requests_a_default_timeout_block() {
    let mut tracker = IpTracker::new(1000, "/usr/sbin/".to_string(), 3600);
    let first = tracker.process_ip_match_at("1.2.3.4".to_string(), 600, 0, 5);
    assert!(first.is_none());
    let second = tracker.process_ip_match_at("1.2.3.4".to_string(), 400, 0, 6).unwrap();
    assert_eq!(second.program, "/usr/sbin/ipset");
    assert_eq!(second.args, args(&["-!", "add", "tallow", "1.2.3.4"]));
    let state = *tracker.tracked_ips.get(&"1.2.3.4".to_string()).unwrap();
    assert_eq!(state, IpState { score: 1000, last_seen: 6, blocked: true, is_ipv6: false });
    let third = tracker.process_ip_match_at("1.2.3.4".to_string(), 400, 0, 7);
    assert!(third.is_none());
}

#[test]
fn instant_block_requests_a_timed_block_even_when_blocked() {
    let mut tracker = IpTracker::new(1000, "/sbin".to_string(), 3600);
    let first = tracker.process_ip_match_at("2001:db8::1".to_string(), 0, 3600, 1).unwrap();
    assert_eq!(first.program, "/sbin/ipset");
    assert_eq!(first.args, args(&["-!", "add", "tallow6", "2001:db8::1", "timeout", "3600"]));
    let again = tracker.process_ip_match_at("2001:db8::1".to_string(), 0, 60, 2).unwrap();
    assert_eq!(again.args, args(&["-!", "add", "tallow6", "2001:db8::1", "timeout", "60"]));
    let state = *tracker.tracked_ips.get(&"2001:db8::1".to_string()).unwrap();
    assert_eq!(state, IpState { score: 0, last_seen: 2, blocked: true, is_ipv6: true });
}

#[test]
fn other_addresses_are_untouched_by_a_match() {
    let mut tracker = create_tracker();
    tracker.process_ip_match_at("5.5.5.5".to_string(), 200, 0, 10);
    tracker.process_ip_match_at("6.6.6.6".to_string(), 900, 0, 20);
    assert_eq!(
        *tracker.tracked_ips.get(&"5.5.5.5".to_string()).unwrap(),
        IpState { score: 200, last_seen: 10, blocked: false, is_ipv6: false }
    );
    assert_eq!(tracker.tracked_ips.len(), 2);
}

#[test]
fn scores_saturate_instead_of_overflowing() {
    let mut tracker = IpTracker::new(i64::MAX, "/sbin".to_string(), 3600);
    tracker.process_ip_match_at("7.7.7.7".to_string(), i64::MAX, 0, 1);
    tracker.process_ip_match_at("7.7.7.7".to_string(), 5, 0, 2);
    assert_eq!(tracker.tracked_ips.get(&"7.7.7.7".to_string()).unwrap().score, i64::MAX);
    tracker.process_ip_match_at("8.8.8.8".to_string(), i64::MIN, 0, 1);
    tracker.process_ip_match_at("8.8.8.8".to_string(), -5, 0, 2);
    assert_eq!(tracker.tracked_ips.get(&"8.8.8.8".to_string()).unwrap().score, i64::MIN);
}

#[test]
fn prune_at_boundary_and_in_the_future() {
    let mut tracker = create_tracker_with_expiry(5);
    let base: u64 = 1_000_000_000_000;
    let st = |last_seen| IpState { score: 0, last_seen, blocked: false, is_ipv6: false };
    tracker.tracked_ips.insert("a".to_string(), st(base - 5_999_999_999));
    tracker.tracked_ips.insert("b".to_string(), st(base - 6_000_000_000));
    tracker.tracked_ips.insert("c".to_string(), st(base + 1));
    tracker.prune_at(base);
    assert!(tracker.tracked_ips.contains_key(&"a".to_string()));
    assert!(!tracker.tracked_ips.contains_key(&"b".to_string()));
    assert!(tracker.tracked_ips.contains_key(&"c".to_string()));
    assert_eq!(tracker.tracked_ips.len(), 2);
}

#[test]
fn negative_expiry_never_prunes() {
    let mut tracker = create_tracker_with_expiry(-1);
    tracker.tracked_ips.insert("a".to_string(), IpState { score: 0, last_seen: 0, blocked: false, is_ipv6: false });
    tracker.prune_at(u64::MAX);
    assert!(tracker.tracked_ips.contains_key(&"a".to_string()));
}

#[test]
fn table_insert_and_remove() {
    let mut table = IpTable::new();
    let s1 = IpState { score: 1, last_seen: 1, blocked: false, is_ipv6: false };
    let s2 = IpState { score: 2, last_seen: 2, blocked: true, is_ipv6: false };
    assert_eq!(table.insert("x".to_string(), s1), None);
    assert_eq!(table.insert("x".to_string(), s2), Some(s1));
    assert_eq!(table.len(), 1);
    assert_eq!(table.remove(&"x".to_string()), Some(s2));
    assert_eq!(table.remove(&"x".to_string()), None);
    assert_eq!(table.len(), 0);
}

#[test]
fn block_ip_builds_the_ipset_command() {
    let tracker = IpTracker::new(1000, "/usr/sbin//".to_string(), 3600);
    let cmd = tracker.block_ip("9.9.9.9", false, Some(0));
    assert_eq!(cmd.program, "/usr/sbin/ipset");
    assert_eq!(cmd.args, args(&["-!", "add", "tallow", "9.9.9.9"]));
    let cmd = tracker.block_ip("::2", true, Some(-3));
    assert_eq!(cmd.args, args(&["-!", "add", "tallow6", "::2"]));
    let cmd = tracker.block_ip("::2", true, Some(12));
    assert_eq!(cmd.args, args(&["-!", "add", "tallow6", "::2", "timeout", "12"]));
}

#[test]
fn whitelisted_addresses_are_counted_but_never_blocked() {
    let groups = vec![FilterGroup {
        filter_str: "_COMM=sshd".to_string(),
        items: vec![PatternItem { pattern_str: "from ([0-9.]+)".to_string(), score: 5000, instant_block: 60 }],
    }];
    let whitelist = vec!["127.0.0.1".to_string(), "::1".to_string()];
    assert!(is_whitelisted(&"::1".to_string(), &whitelist));
    assert!(!is_whitelisted(&"127.0.0.2".to_string(), &whitelist));
    let mut tracker = create_tracker();
    tracker.whitelist = whitelist;
    assert!(tracker.handle_message("Failed password from 127.0.0.1 port 1", &groups).is_none());
    let listed = *tracker.tracked_ips.get(&"127.0.0.1".to_string()).unwrap();
    assert_eq!(listed.score, 5000);
    assert!(!listed.blocked);
    let cmd = tracker.handle_message("Failed password from 10.1.1.1 port 1", &groups).unwrap();
    assert_eq!(cmd.args, args(&["-!", "add", "tallow", "10.1.1.1", "timeout", "60"]));
    assert!(tracker.tracked_ips.get(&"10.1.1.1".to_string()).unwrap().blocked);
    assert!(tracker.handle_message("System startup complete", &groups).is_none());
    assert_eq!(tracker.tracked_ips.len(), 2);
}

#[test]
fn process_ip_match_never_blocks_a_whitelisted_address() {
    let mut tracker = create_tracker();
    tracker.whitelist = vec!["127.0.0.1".to_string(), "::1".to_string()];
    assert!(tracker.process_ip_match("127.0.0.1".to_string(), 2000, 0).is_none());
    assert!(tracker.process_ip_match("::1".to_string(), 0, 3600).is_none());
    let v4 = *tracker.tracked_ips.get(&"127.0.0.1".to_string()).unwrap();
    assert_eq!(v4.score, 2000);
    assert!(!v4.blocked);
    assert!(!tracker.tracked_ips.get(&"::1".to_string()).unwrap().blocked);
    assert!(tracker.process_ip_match("127.0.0.2".to_string(), 2000, 0).is_some());
}

#[test]
fn nocreate_withholds_blocks_but_tracks_alike() {
    let mut quiet = create_tracker();
    quiet.nocreate = true;
    let mut loud = create_tracker();
    assert!(quiet.process_ip_match_at("1.2.3.4".to_string(), 100, 300, 5).is_none());
    assert!(loud.process_ip_match_at("1.2.3.4".to_string(), 100, 300, 5).is_some());
    assert!(quiet.process_ip_match_at("1.2.3.5".to_string(), 1500, 0, 6).is_none());
    assert!(loud.process_ip_match_at("1.2.3.5".to_string(), 1500, 0, 6).is_some());
    for ip in ["1.2.3.4", "1.2.3.5"] {
        let ip = ip.to_string();
        assert_eq!(quiet.tracked_ips.get(&ip), loud.tracked_ips.get(&ip));
        assert!(quiet.tracked_ips.get(&ip).unwrap().blocked);
    }
}
