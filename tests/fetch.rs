use rpc_monitor::fetch::{
    check_envelope, check_status, combine_attempt, FetchAction, FetchError, FetchEvent,
    FetchSession, Protocol, ProtocolStats, RpcEnvelope, RpcErrorBody, Stage, Tier,
};
use rpc_monitor::models::RpcEndpoint;

fn endpoint() -> RpcEndpoint {
    RpcEndpoint { url: "https://alpha.example".to_string(), nickname: "alpha".to_string() }
}

#[test]
fn preferred_tier_success_measures_over_http2() {
    let mut s = FetchSession::new();
    assert_eq!(s.tier, Tier::Preferred);
    assert_eq!(s.next_action(), FetchAction::Attempt(Tier::Preferred));
    s.advance(FetchEvent::Fetched { blockhash: "H1".to_string(), slot: 100 });
    assert_eq!(s.next_action(), FetchAction::Measure(Protocol::Http2));
    assert_eq!(s.tier, Tier::Preferred);
    s.advance(FetchEvent::Measured(20));
    assert_eq!(s.next_action(), FetchAction::Complete);
    let r = s.into_observation(&endpoint(), 1_700_000_000_000).unwrap();
    assert_eq!(r.slot, 100);
    assert_eq!(r.blockhash, "H1");
    assert_eq!(r.latency_ms, 20);
    assert_eq!(r.nickname, "alpha");
    assert_eq!(r.rpc_url, "https://alpha.example");
    assert_eq!(r.timestamp_ms, 1_700_000_000_000);
}

#[test]
fn tiers_fall_back_in_order() {
    let mut s = FetchSession::new();
    s.advance(FetchEvent::Failed);
    assert_eq!(s.stage, Stage::Attempting(Tier::Fallback));
    s.advance(FetchEvent::Fetched { blockhash: "H2".to_string(), slot: 7 });
    assert_eq!(s.tier, Tier::Fallback);
    assert_eq!(s.stage, Stage::Measuring(Protocol::Http2));
    s.advance(FetchEvent::Failed);
    assert_eq!(s.stage, Stage::Measuring(Protocol::Http1));
    s.advance(FetchEvent::Failed);
    assert_eq!(s.stage, Stage::Finished);
    assert_eq!(s.latency_ms, 999);
}

#[test]
fn legacy_tier_measures_over_http2_first() {
    let mut s = FetchSession::new();
    s.advance(FetchEvent::Failed);
    s.advance(FetchEvent::Failed);
    assert_eq!(s.next_action(), FetchAction::Attempt(Tier::Legacy));
    s.advance(FetchEvent::LegacyFetched { blockhash: None, slot: Some(42) });
    assert_eq!(s.tier, Tier::Legacy);
    assert_eq!(s.slot, 42);
    assert_eq!(s.blockhash, "unavailable");
    assert_eq!(s.next_action(), FetchAction::Measure(Protocol::Http2));
    s.advance(FetchEvent::Measured(33));
    assert_eq!(s.latency_ms, 33);
    assert!(s.into_observation(&endpoint(), 0).is_none());
}

#[test]
fn legacy_tier_retries_measurement_over_http1() {
    let mut s = FetchSession::new();
    s.advance(FetchEvent::Failed);
    s.advance(FetchEvent::Failed);
    s.advance(FetchEvent::LegacyFetched { blockhash: Some("H9".to_string()), slot: Some(8) });
    s.advance(FetchEvent::Failed);
    assert_eq!(s.next_action(), FetchAction::Measure(Protocol::Http1));
    s.advance(FetchEvent::Measured(71));
    assert_eq!(s.latency_ms, 71);
    let r = s.into_observation(&endpoint(), 5).unwrap();
    assert_eq!(r.blockhash, "H9");
    assert_eq!(r.slot, 8);
    assert_eq!(r.latency_ms, 71);
}

#[test]
fn mismatched_event_changes_nothing() {
    let mut s = FetchSession::new();
    s.advance(FetchEvent::Measured(5));
    assert_eq!(s.stage, Stage::Attempting(Tier::Preferred));
    assert_eq!(s.latency_ms, 999);
}

#[test]
fn zero_slot_is_not_stored() {
    let mut s = FetchSession::new();
    s.advance(FetchEvent::Fetched { blockhash: "H1".to_string(), slot: 0 });
    s.advance(FetchEvent::Measured(1));
    assert!(s.into_observation(&endpoint(), 0).is_none());
}

#[test]
fn unavailable_block_is_not_stored() {
    let mut s = FetchSession::new();
    s.advance(FetchEvent::Failed);
    s.advance(FetchEvent::Failed);
    s.advance(FetchEvent::Failed);
    assert_eq!(s.slot, 0);
    assert_eq!(s.blockhash, "unavailable");
    s.advance(FetchEvent::Measured(1));
    assert!(s.into_observation(&endpoint(), 0).is_none());
}

#[test]
fn status_codes() {
    assert!(check_status(200).is_none());
    assert!(check_status(299).is_none());
    assert!(matches!(check_status(503), Some(FetchError::Protocol(503))));
    assert!(matches!(check_status(199), Some(FetchError::Protocol(199))));
}

#[test]
fn envelopes() {
    let ok = RpcEnvelope { error: None, has_result: true };
    assert!(check_envelope(&ok).is_ok());
    let err = RpcEnvelope {
        error: Some(RpcErrorBody { code: -32601, message: "Method not found".to_string() }),
        has_result: false,
    };
    match check_envelope(&err) {
        Err(FetchError::Rpc { code, message }) => {
            assert_eq!(code, -32601);
            assert_eq!(message, "Method not found");
        }
        other => panic!("unexpected {:?}", other),
    }
    let missing = RpcEnvelope { error: None, has_result: false };
    match check_envelope(&missing) {
        Err(FetchError::Decode(m)) => assert_eq!(m, "Missing result in RPC response"),
        other => panic!("unexpected {:?}", other),
    }
}

#[test]
fn attempt_latency_is_the_slower_call() {
    let r = combine_attempt(Ok(("H".to_string(), 30)), Ok((5, 45))).unwrap();
    assert_eq!(r, ("H".to_string(), 5, 45));
    let r = combine_attempt(Ok(("H".to_string(), 50)), Ok((5, 45))).unwrap();
    assert_eq!(r.2, 50);
    let e = combine_attempt(Err(FetchError::Transport("t".to_string())), Err(FetchError::Protocol(500)));
    assert!(matches!(e, Err(FetchError::Transport(_))));
    let e = combine_attempt(Ok(("H".to_string(), 1)), Err(FetchError::Protocol(500)));
    assert!(matches!(e, Err(FetchError::Protocol(500))));
}

#[test]
fn protocol_counters() {
    let mut st = ProtocolStats::new();
    assert!(!st.report_due());
    for _ in 0..30 {
        st.record(Tier::Preferred);
    }
    for _ in 0..19 {
        st.record(Tier::Fallback);
    }
    assert!(!st.report_due());
    st.record(Tier::Legacy);
    assert_eq!(st.preferred, 30);
    assert_eq!(st.fallback, 20);
    assert_eq!(st.total(), 50);
    assert!(st.report_due());
    assert_eq!(st.preferred_percent(), 60);
}

#[test]
fn counters_stop_at_maximum() {
    let mut st = ProtocolStats { preferred: u64::MAX, fallback: 0 };
    st.record(Tier::Preferred);
    assert_eq!(st.preferred, u64::MAX);
    st.record(Tier::Fallback);
    assert_eq!(st.fallback, 1);
}
