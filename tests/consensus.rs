use rpc_monitor::consensus::calculate_consensus;
use rpc_monitor::models::RPCResponse;

fn obs(nickname: &str, slot: u64, blockhash: &str, latency_ms: u64, timestamp_ms: i64) -> RPCResponse {
    RPCResponse {
        timestamp_ms,
        slot,
        blockhash: blockhash.to_string(),
        latency_ms,
        rpc_url: format!("https://{}.example", nickname),
        nickname: nickname.to_string(),
    }
}

#[test]
fn two_agreeing_endpoints() {
    let input = vec![
        obs("alpha", 100, "H1", 20, 1_000),
        obs("beta", 100, "H1", 80, 2_000),
    ];
    let stats = calculate_consensus(&input);
    assert_eq!(stats.consensus_blockhash, "H1");
    assert_eq!(stats.consensus_percentage, 100);
    assert_eq!(stats.consensus_count, 2);
    assert_eq!(stats.consensus_slot, 100);
    assert_eq!(stats.fastest_rpc, "alpha");
    assert_eq!(stats.fastest_latency, 20);
    assert_eq!(stats.slowest_rpc, "beta");
    assert_eq!(stats.slowest_latency, 80);
    assert_eq!(stats.slot_difference, 0);
    assert_eq!(stats.slot_skew, "no skew");
    assert_eq!(stats.average_latency, 50);
    assert_eq!(stats.latency_total, 100);
    assert_eq!(stats.total_rpcs, 2);
    let by_latency: Vec<&str> = stats.latency_leaderboard.iter().map(|e| e.nickname.as_str()).collect();
    assert_eq!(by_latency, vec!["alpha", "beta"]);
    let by_slot: Vec<&str> = stats.slot_leaderboard.iter().map(|e| e.nickname.as_str()).collect();
    assert_eq!(by_slot, vec!["alpha", "beta"]);
}

#[test]
fn empty_snapshot_reports_no_data() {
    let stats = calculate_consensus(&[]);
    assert_eq!(stats.fastest_rpc, "No data");
    assert_eq!(stats.slowest_rpc, "No data");
    assert_eq!(stats.consensus_blockhash, "No data");
    assert_eq!(stats.slot_skew, "No data");
    assert_eq!(stats.fastest_latency, 0);
    assert_eq!(stats.slowest_latency, 0);
    assert_eq!(stats.consensus_slot, 0);
    assert_eq!(stats.consensus_percentage, 0);
    assert_eq!(stats.total_rpcs, 0);
    assert_eq!(stats.average_latency, 0);
    assert_eq!(stats.slot_difference, 0);
    assert!(stats.latency_leaderboard.is_empty());
    assert!(stats.slot_leaderboard.is_empty());
}

#[test]
fn majority_share_of_three() {
    let input = vec![
        obs("a", 10, "H2", 5, 0),
        obs("b", 11, "H1", 6, 0),
        obs("c", 11, "H1", 7, 0),
    ];
    let stats = calculate_consensus(&input);
    assert_eq!(stats.consensus_blockhash, "H1");
    assert_eq!(stats.consensus_count, 2);
    assert_eq!(stats.consensus_percentage, 66);
    assert_eq!(stats.consensus_slot, 11);
    // two distinct identifiers: at least ceil(3 / 2) votes
    assert!(stats.consensus_count >= 2);
}

#[test]
fn ties_go_to_first_seen_value() {
    let input = vec![obs("a", 7, "H2", 5, 0), obs("b", 9, "H1", 5, 0)];
    let stats = calculate_consensus(&input);
    assert_eq!(stats.consensus_blockhash, "H2");
    assert_eq!(stats.consensus_percentage, 50);
    assert_eq!(stats.consensus_slot, 7);
    assert_eq!(stats.fastest_rpc, "a");
    assert_eq!(stats.slowest_rpc, "a");
}

#[test]
fn fastest_ahead_of_slowest() {
    let input = vec![obs("slow", 95, "H", 90, 0), obs("fast", 100, "H", 10, 0)];
    let stats = calculate_consensus(&input);
    assert_eq!(stats.slot_difference, 5);
    assert_eq!(stats.slot_skew, "fastest ahead by 5 slots");
}

#[test]
fn slowest_ahead_of_fastest() {
    let input = vec![obs("fast", 97, "H", 10, 0), obs("slow", 100, "H", 90, 0)];
    let stats = calculate_consensus(&input);
    assert_eq!(stats.slot_difference, -3);
    assert_eq!(stats.slot_skew, "slowest ahead by 3 slots");
}

#[test]
fn average_latency_rounds_down() {
    let input = vec![obs("a", 1, "H", 10, 0), obs("b", 1, "H", 11, 0)];
    let stats = calculate_consensus(&input);
    assert_eq!(stats.latency_total, 21);
    assert_eq!(stats.average_latency, 10);
}

#[test]
fn leaderboards_keep_top_four_in_order() {
    let input = vec![
        obs("a", 50, "H", 40, 1),
        obs("b", 70, "H", 10, 2),
        obs("c", 60, "H", 30, 3),
        obs("d", 90, "H", 20, 4),
        obs("e", 80, "H", 50, 5),
        obs("f", 10, "H", 10, 6),
    ];
    let stats = calculate_consensus(&input);
    let lat: Vec<(&str, u64)> =
        stats.latency_leaderboard.iter().map(|e| (e.nickname.as_str(), e.value)).collect();
    assert_eq!(lat, vec![("b", 10), ("f", 10), ("d", 20), ("c", 30)]);
    let slots: Vec<(&str, u64)> =
        stats.slot_leaderboard.iter().map(|e| (e.nickname.as_str(), e.value)).collect();
    assert_eq!(slots, vec![("d", 90), ("e", 80), ("b", 70), ("c", 60)]);
    let d = &stats.slot_leaderboard[0];
    assert_eq!(d.latency_ms, 20);
    assert_eq!(d.timestamp_ms, 4);
}

#[test]
fn leaderboards_shorter_than_four() {
    let input = vec![obs("x", 3, "H", 9, 0)];
    let stats = calculate_consensus(&input);
    assert_eq!(stats.latency_leaderboard.len(), 1);
    assert_eq!(stats.slot_leaderboard.len(), 1);
    assert_eq!(stats.slot_leaderboard[0].value, 3);
    assert_eq!(stats.latency_leaderboard[0].value, 9);
}
