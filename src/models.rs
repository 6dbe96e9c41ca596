//! The data model shared by the fetch client, the store and the consensus engine.
use vstd::prelude::*;

verus! {

/// A monitored target: its network address and its display label.
#[derive(Debug, Clone)]
pub struct RpcEndpoint {
    pub url: String,
    pub nickname: String,
}

/// One sample of an endpoint's chain state, as persisted per poll.
///
/// `timestamp_ms` is the capture time in milliseconds since the Unix epoch.
#[derive(Debug, Clone)]
pub struct RPCResponse {
    pub timestamp_ms: i64,
    pub slot: u64,
    pub blockhash: String,
    pub latency_ms: u64,
    pub rpc_url: String,
    pub nickname: String,
}

/// The endpoint registry section of a configuration.
#[derive(Debug, Clone)]
pub struct RpcConfig {
    pub endpoints: Vec<RpcEndpoint>,
}

/// A configuration that holds only the endpoint registry.
#[derive(Debug, Clone)]
pub struct Config {
    pub rpc: RpcConfig,
}

/// A projection of an observation, ranked by latency or by slot.
#[derive(Debug, Clone)]
pub struct LeaderboardEntry {
    pub nickname: String,
    pub value: u64,
    pub latency_ms: u64,
    pub timestamp_ms: i64,
}

/// Cross-endpoint agreement and latency figures over one snapshot.
///
/// `consensus_percentage` is `100 * consensus_count / total_rpcs`, rounded down;
/// `average_latency` is `latency_total / total_rpcs`, rounded down. The exact
/// numerators are kept beside them.
#[derive(Debug, Clone)]
pub struct ConsensusStats {
    pub fastest_rpc: String,
    pub slowest_rpc: String,
    pub fastest_latency: u64,
    pub slowest_latency: u64,
    pub consensus_blockhash: String,
    pub consensus_slot: u64,
    pub consensus_count: usize,
    pub consensus_percentage: u64,
    pub total_rpcs: usize,
    pub latency_total: u128,
    pub average_latency: u64,
    pub slot_difference: i128,
    pub slot_skew: String,
    pub latency_leaderboard: Vec<LeaderboardEntry>,
    pub slot_leaderboard: Vec<LeaderboardEntry>,
}

/// A copy of an observation that Verus knows to be equal to it, field by field.
pub fn copy_response(r: &RPCResponse) -> (c: RPCResponse)
    ensures
        c.timestamp_ms == r.timestamp_ms,
        c.slot == r.slot,
        c.blockhash@ == r.blockhash@,
        c.latency_ms == r.latency_ms,
        c.rpc_url@ == r.rpc_url@,
        c.nickname@ == r.nickname@,
{
    RPCResponse {
        timestamp_ms: r.timestamp_ms,
        slot: r.slot,
        blockhash: r.blockhash.clone(),
        latency_ms: r.latency_ms,
        rpc_url: r.rpc_url.clone(),
        nickname: r.nickname.clone(),
    }
}

} // verus!
