use rpc_monitor::config::{AppConfig, RpcConfig, ServerConfig};
use rpc_monitor::models::RPCResponse;
use rpc_monitor::store::{
    expired_keys, get_metrics, is_expired, latest_per_label, query_accepts, record_key,
    select_records, MetricsQuery, StoredRecord,
};

fn obs(nickname: &str, url: &str, slot: u64, timestamp_ms: i64) -> RPCResponse {
    RPCResponse {
        timestamp_ms,
        slot,
        blockhash: "H1".to_string(),
        latency_ms: 10,
        rpc_url: url.to_string(),
        nickname: nickname.to_string(),
    }
}

const NOW: i64 = 1_700_000_000;

#[test]
fn keys_join_label_and_seconds() {
    assert_eq!(record_key("alpha", 1_700_000_000), "alpha:1700000000");
    assert_eq!(record_key("b", 0), "b:0");
}

#[test]
fn retention_evicts_two_hour_old_and_keeps_recent() {
    let old = obs("A", "https://alpha", 1, (NOW - 7200) * 1000);
    let recent = obs("A", "https://alpha", 2, (NOW - 1800) * 1000);
    assert!(is_expired(&old, NOW));
    assert!(!is_expired(&recent, NOW));
    let records = vec![
        StoredRecord { key: b"A:old".to_vec(), response: old },
        StoredRecord { key: b"A:recent".to_vec(), response: recent },
    ];
    assert_eq!(expired_keys(&records, NOW), vec![b"A:old".to_vec()]);
}

#[test]
fn retention_boundary_is_exclusive() {
    let edge = obs("A", "u", 1, (NOW - 3600) * 1000);
    assert!(!is_expired(&edge, NOW));
    let just_before = obs("A", "u", 1, (NOW - 3600) * 1000 - 1);
    assert!(is_expired(&just_before, NOW));
}

fn scan() -> Vec<RPCResponse> {
    vec![
        obs("B", "https://beta.node", 6, (NOW - 60) * 1000),
        obs("A", "https://alpha.node", 5, (NOW - 30) * 1000),
        obs("B", "https://beta.node", 4, (NOW - 900) * 1000),
        obs("A", "https://alpha.node", 3, (NOW - 600) * 1000),
        obs("A", "https://alpha.node", 2, (NOW - 1200) * 1000),
    ]
}

#[test]
fn address_filter_keeps_matching_endpoint() {
    let q = MetricsQuery { rpc: Some("alpha".to_string()), from: None, to: None };
    let out = select_records(&scan(), &q);
    let slots: Vec<u64> = out.iter().map(|r| r.slot).collect();
    assert_eq!(slots, vec![5, 3, 2]);
    assert!(out.iter().all(|r| r.nickname == "A" && r.rpc_url.is_empty()));
}

#[test]
fn time_window_is_inclusive() {
    let q = MetricsQuery { rpc: None, from: Some(NOW - 900), to: Some(NOW - 300) };
    let out = select_records(&scan(), &q);
    let slots: Vec<u64> = out.iter().map(|r| r.slot).collect();
    assert_eq!(slots, vec![3, 4]);
}

#[test]
fn unfiltered_query_is_newest_first() {
    let q = MetricsQuery { rpc: None, from: None, to: None };
    let out = select_records(&scan(), &q);
    let slots: Vec<u64> = out.iter().map(|r| r.slot).collect();
    assert_eq!(slots, vec![5, 6, 3, 4, 2]);
}

#[test]
fn accepts_checks_each_part() {
    let r = obs("A", "https://alpha.node", 1, 5_000);
    let q = MetricsQuery { rpc: Some("beta".to_string()), from: None, to: None };
    assert!(!query_accepts(&q, &r));
    let q = MetricsQuery { rpc: Some("pha.no".to_string()), from: Some(5), to: Some(5) };
    assert!(query_accepts(&q, &r));
    let q = MetricsQuery { rpc: None, from: Some(6), to: None };
    assert!(!query_accepts(&q, &r));
}

#[test]
fn latest_observation_per_label() {
    let out = latest_per_label(&scan());
    let picked: Vec<(&str, u64)> = out.iter().map(|r| (r.nickname.as_str(), r.slot)).collect();
    assert_eq!(picked, vec![("B", 6), ("A", 5)]);
    assert_eq!(out[0].rpc_url, "https://beta.node");
}

#[test]
fn metrics_answer_ignores_filter_for_consensus() {
    let q = MetricsQuery { rpc: Some("alpha".to_string()), from: None, to: None };
    let (records, stats) = get_metrics(&scan(), &q);
    assert_eq!(records.len(), 3);
    assert_eq!(stats.total_rpcs, 2);
    assert_eq!(stats.consensus_slot, 6);
}

#[test]
fn command_line_overrides_file() {
    let mut config = AppConfig {
        server: ServerConfig { listen_ip: Some("0.0.0.0".to_string()), port: None },
        rpc: RpcConfig { endpoints: vec![] },
    };
    assert_eq!(config.listen_address(), ("0.0.0.0".to_string(), 3000));
    config.apply_overrides(None, Some(8080));
    assert_eq!(config.listen_address(), ("0.0.0.0".to_string(), 8080));
    config.apply_overrides(Some("10.0.0.1".to_string()), None);
    assert_eq!(config.listen_address(), ("10.0.0.1".to_string(), 8080));
    let bare = AppConfig {
        server: ServerConfig { listen_ip: None, port: None },
        rpc: RpcConfig { endpoints: vec![] },
    };
    assert_eq!(bare.listen_address(), ("127.0.0.1".to_string(), 3000));
}
