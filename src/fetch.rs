//! Decisions of the tiered fetch client: which protocol tier to try next, how
//! latency is measured, how replies are judged, and which results are kept.
//! The network calls themselves are made by the caller, which feeds each
//! outcome back as an event.
use vstd::prelude::*;

use crate::models::{RPCResponse, RpcEndpoint};

verus! {

/// The latency reported when no measurement call succeeded.
pub const SENTINEL_LATENCY_MS: u64 = 999;

/// How many completed polls pass between two protocol-usage reports.
pub const STATS_REPORT_EVERY: u64 = 50;

/// The block identifier recorded when no tier could obtain one.
pub open spec fn unavailable() -> Seq<char> {
    "unavailable"@
}

/// The three fetch strategies, tried in this order.
#[derive(Debug, Clone, Copy, PartialEq, Eq, Structural)]
pub enum Tier {
    /// Two concurrent calls over the pooled multiplexed-protocol client.
    Preferred,
    /// The same two calls over the pooled older-protocol client.
    Fallback,
    /// Sequential blocking calls over the minimal client.
    Legacy,
}

/// The wire protocol of a latency measurement call.
#[derive(Debug, Clone, Copy, PartialEq, Eq, Structural)]
pub enum Protocol {
    Http2,
    Http1,
}

/// Why a single RPC call failed.
#[derive(Debug, Clone)]
pub enum FetchError {
    /// Connect, timeout or name resolution failure.
    Transport(String),
    /// A non-success HTTP status.
    Protocol(u16),
    /// A well-formed JSON-RPC error object.
    Rpc { code: i64, message: String },
    /// A malformed or unexpected body.
    Decode(String),
}

/// The error object of a JSON-RPC reply.
#[derive(Debug, Clone)]
pub struct RpcErrorBody {
    pub code: i64,
    pub message: String,
}

/// What a decoded JSON-RPC envelope carries.
#[derive(Debug, Clone)]
pub struct RpcEnvelope {
    pub error: Option<RpcErrorBody>,
    pub has_result: bool,
}

/// The failure of a non-success status; `None` for 200 to 299.
pub fn check_status(status: u16) -> (r: Option<FetchError>)
    ensures
        (200 <= status <= 299) <==> r is None,
        r is Some ==> r == Some(FetchError::Protocol(status)),
{
    if 200 <= status && status <= 299 {
        None
    } else {
        Some(FetchError::Protocol(status))
    }
}

/// Judges a decoded envelope: its error object comes first, then a missing
/// result.
pub fn check_envelope(envelope: &RpcEnvelope) -> (r: Result<(), FetchError>)
    ensures
        r is Ok <==> (envelope.error is None && envelope.has_result),
        envelope.error is Some ==> (r matches Err(FetchError::Rpc { code, message }) && code
            == envelope.error->0.code && message@ == envelope.error->0.message@),
        envelope.error is None && !envelope.has_result ==> (r matches Err(FetchError::Decode(m))
            && m@ == "Missing result in RPC response"@),
{
    match &envelope.error {
        Some(e) => Err(FetchError::Rpc { code: e.code, message: e.message.clone() }),
        None => {
            if envelope.has_result {
                Ok(())
            } else {
                Err(FetchError::Decode(String::from_str("Missing result in RPC response")))
            }
        },
    }
}

/// Joins the two concurrent calls of one attempt: the attempt fails with the
/// first failure (the block identifier call's before the slot call's), and
/// its latency is that of the slower call.
pub fn combine_attempt(
    blockhash: Result<(String, u64), FetchError>,
    slot: Result<(u64, u64), FetchError>,
) -> (r: Result<(String, u64, u64), FetchError>)
    ensures
        r is Ok <==> (blockhash is Ok && slot is Ok),
        blockhash is Err ==> r == Err::<(String, u64, u64), FetchError>(blockhash->Err_0),
        blockhash is Ok && slot is Err ==> r == Err::<(String, u64, u64), FetchError>(slot->Err_0),
        r is Ok ==> ({
            let (h, s, l) = r->Ok_0;
            &&& h == blockhash->Ok_0.0
            &&& s == slot->Ok_0.0
            &&& l == if blockhash->Ok_0.1 >= slot->Ok_0.1 { blockhash->Ok_0.1 } else { slot->Ok_0.1 }
        }),
{
    match blockhash {
        Err(e) => Err(e),
        Ok((hash, hash_latency)) => match slot {
            Err(e) => Err(e),
            Ok((slot_num, slot_latency)) => {
                let latency = if hash_latency >= slot_latency { hash_latency } else { slot_latency };
                Ok((hash, slot_num, latency))
            },
        },
    }
}

/// Where a poll of one endpoint stands.
#[derive(Debug, Clone, Copy, PartialEq, Eq, Structural)]
pub enum Stage {
    /// The tier's attempt is due.
    Attempting(Tier),
    /// The separate latency measurement call is due over the protocol.
    Measuring(Protocol),
    /// Nothing is left to do.
    Finished,
}

/// The next network work a poll asks of its caller.
#[derive(Debug, Clone, Copy, PartialEq, Eq, Structural)]
pub enum FetchAction {
    /// Run the tier's attempt and report `Fetched`, `LegacyFetched` or `Failed`.
    Attempt(Tier),
    /// Run a latency measurement call and report `Measured` or `Failed`.
    Measure(Protocol),
    /// The poll is complete.
    Complete,
}

/// The outcome of the work that the last action asked for.
#[derive(Debug, Clone)]
pub enum FetchEvent {
    /// A pooled tier obtained both the block identifier and the slot.
    Fetched { blockhash: String, slot: u64 },
    /// The minimal client's sequential calls, each of which may have failed.
    LegacyFetched { blockhash: Option<String>, slot: Option<u64> },
    /// A measurement call took this many milliseconds.
    Measured(u64),
    /// The attempt or the measurement failed.
    Failed,
}

/// The state of one endpoint's poll.
#[derive(Debug, Clone)]
pub struct FetchSession {
    pub stage: Stage,
    /// The tier that obtained the chain state, once one has.
    pub tier: Tier,
    pub blockhash: String,
    pub slot: u64,
    pub latency_ms: u64,
}

/// The action that a stage asks for.
pub open spec fn action_of(stage: Stage) -> FetchAction {
    match stage {
        Stage::Attempting(t) => FetchAction::Attempt(t),
        Stage::Measuring(p) => FetchAction::Measure(p),
        Stage::Finished => FetchAction::Complete,
    }
}

/// The session after the chain state was obtained by tier `t`: whichever tier
/// served the data, latency is measured on the preferred protocol first.
pub open spec fn obtained(a: FetchSession, b: FetchSession, t: Tier, hash: Seq<char>, slot: u64) -> bool {
    &&& b.tier == t
    &&& b.blockhash@ == hash
    &&& b.slot == slot
    &&& b.latency_ms == a.latency_ms
    &&& b.stage == Stage::Measuring(Protocol::Http2)
}

/// `b` is `a` with its stage replaced by `st`.
pub open spec fn moved(a: FetchSession, b: FetchSession, st: Stage) -> bool {
    &&& b.stage == st
    &&& b.tier == a.tier
    &&& b.blockhash@ == a.blockhash@
    &&& b.slot == a.slot
    &&& b.latency_ms == a.latency_ms
}

/// One step of the tier fallback and latency measurement policy. An event
/// that does not answer the stage's action leaves the session as it was.
pub open spec fn steps_to(a: FetchSession, e: FetchEvent, b: FetchSession) -> bool {
    match (a.stage, e) {
        (Stage::Attempting(Tier::Legacy), FetchEvent::LegacyFetched { blockhash, slot }) => obtained(
            a,
            b,
            Tier::Legacy,
            match blockhash {
                Some(h) => h@,
                None => unavailable(),
            },
            match slot {
                Some(n) => n,
                None => 0,
            },
        ),
        (Stage::Attempting(Tier::Legacy), FetchEvent::Failed) => obtained(a, b, Tier::Legacy, unavailable(), 0),
        (Stage::Attempting(t), FetchEvent::Fetched { blockhash, slot }) => t != Tier::Legacy && obtained(
            a,
            b,
            t,
            blockhash@,
            slot,
        ) || t == Tier::Legacy && moved(a, b, a.stage),
        (Stage::Attempting(Tier::Preferred), FetchEvent::Failed) => moved(a, b, Stage::Attempting(Tier::Fallback)),
        (Stage::Attempting(Tier::Fallback), FetchEvent::Failed) => moved(a, b, Stage::Attempting(Tier::Legacy)),
        (Stage::Measuring(_), FetchEvent::Measured(ms)) => {
            &&& b.stage == Stage::Finished
            &&& b.tier == a.tier
            &&& b.blockhash@ == a.blockhash@
            &&& b.slot == a.slot
            &&& b.latency_ms == ms
        },
        (Stage::Measuring(Protocol::Http2), FetchEvent::Failed) => moved(a, b, Stage::Measuring(Protocol::Http1)),
        (Stage::Measuring(Protocol::Http1), FetchEvent::Failed) => {
            &&& b.stage == Stage::Finished
            &&& b.tier == a.tier
            &&& b.blockhash@ == a.blockhash@
            &&& b.slot == a.slot
            &&& b.latency_ms == SENTINEL_LATENCY_MS
        },
        _ => moved(a, b, a.stage),
    }
}

/// The observation that a finished session yields, before validation.
pub open spec fn is_observation_of(s: FetchSession, endpoint: RpcEndpoint, timestamp_ms: i64, r: RPCResponse) -> bool {
    &&& r.timestamp_ms == timestamp_ms
    &&& r.slot == s.slot
    &&& r.blockhash@ == s.blockhash@
    &&& r.latency_ms == s.latency_ms
    &&& r.rpc_url@ == endpoint.url@
    &&& r.nickname@ == endpoint.nickname@
}

/// A result that counts as an observation and may be stored.
pub open spec fn is_persistable(slot: u64, blockhash: Seq<char>) -> bool {
    slot != 0 && blockhash != unavailable()
}

impl FetchSession {
    /// A poll that starts with the preferred tier.
    pub fn new() -> (s: FetchSession)
        ensures
            s.stage == Stage::Attempting(Tier::Preferred),
            s.tier == Tier::Preferred,
            s.blockhash@ == unavailable(),
            s.slot == 0,
            s.latency_ms == SENTINEL_LATENCY_MS,
    {
        FetchSession {
            stage: Stage::Attempting(Tier::Preferred),
            tier: Tier::Preferred,
            blockhash: String::from_str("unavailable"),
            slot: 0,
            latency_ms: SENTINEL_LATENCY_MS,
        }
    }

    /// The work that the poll asks for next.
    pub fn next_action(&self) -> (a: FetchAction)
        ensures
            a == action_of(self.stage),
    {
        match self.stage {
            Stage::Attempting(t) => FetchAction::Attempt(t),
            Stage::Measuring(p) => FetchAction::Measure(p),
            Stage::Finished => FetchAction::Complete,
        }
    }

    fn obtain(&mut self, t: Tier, blockhash: String, slot: u64)
        ensures
            obtained(*old(self), *final(self), t, blockhash@, slot),
    {
        self.tier = t;
        self.blockhash = blockhash;
        self.slot = slot;
        self.stage = Stage::Measuring(Protocol::Http2);
    }

    /// Takes in the outcome of the last action.
    pub fn advance(&mut self, event: FetchEvent)
        ensures
            steps_to(*old(self), event, *final(self)),
    {
        match (self.stage, event) {
            (Stage::Attempting(Tier::Legacy), FetchEvent::LegacyFetched { blockhash, slot }) => {
                let hash = match blockhash {
                    Some(h) => h,
                    None => String::from_str("unavailable"),
                };
                let n = match slot {
                    Some(n) => n,
                    None => 0,
                };
                self.obtain(Tier::Legacy, hash, n);
            },
            (Stage::Attempting(Tier::Legacy), FetchEvent::Failed) => {
                self.obtain(Tier::Legacy, String::from_str("unavailable"), 0);
            },
            (Stage::Attempting(t), FetchEvent::Fetched { blockhash, slot }) => {
                if t != Tier::Legacy {
                    self.obtain(t, blockhash, slot);
                }
            },
            (Stage::Attempting(Tier::Preferred), FetchEvent::Failed) => {
                self.stage = Stage::Attempting(Tier::Fallback);
            },
            (Stage::Attempting(Tier::Fallback), FetchEvent::Failed) => {
                self.stage = Stage::Attempting(Tier::Legacy);
            },
            (Stage::Measuring(_), FetchEvent::Measured(ms)) => {
                self.latency_ms = ms;
                self.stage = Stage::Finished;
            },
            (Stage::Measuring(Protocol::Http2), FetchEvent::Failed) => {
                self.stage = Stage::Measuring(Protocol::Http1);
            },
            (Stage::Measuring(Protocol::Http1), FetchEvent::Failed) => {
                self.latency_ms = SENTINEL_LATENCY_MS;
                self.stage = Stage::Finished;
            },
            _ => {},
        }
    }

    /// The observation of a finished poll, or `None` where it is no
    /// observation (slot 0 or no block identifier) and must not be stored.
    pub fn into_observation(&self, endpoint: &RpcEndpoint, timestamp_ms: i64) -> (r: Option<RPCResponse>)
        ensures
            r is Some <==> is_persistable(self.slot, self.blockhash@),
            r is Some ==> is_observation_of(*self, *endpoint, timestamp_ms, r->0),
    {
        let unavailable_text = String::from_str("unavailable");
        if self.slot == 0 || self.blockhash == unavailable_text {
            None
        } else {
            Some(
                RPCResponse {
                    timestamp_ms,
                    slot: self.slot,
                    blockhash: self.blockhash.clone(),
                    latency_ms: self.latency_ms,
                    rpc_url: endpoint.url.clone(),
                    nickname: endpoint.nickname.clone(),
                },
            )
        }
    }
}

/// Counts of polls satisfied by the preferred tier and by the other tiers.
#[derive(Debug, Clone, Copy)]
pub struct ProtocolStats {
    pub preferred: u64,
    pub fallback: u64,
}

impl ProtocolStats {
    /// The number of polls counted.
    pub open spec fn total_spec(self) -> int {
        self.preferred + self.fallback
    }

    /// Both counters at zero.
    pub fn new() -> (s: ProtocolStats)
        ensures
            s.preferred == 0,
            s.fallback == 0,
    {
        ProtocolStats { preferred: 0, fallback: 0 }
    }

    /// Counts one completed poll under the tier that satisfied it; a counter
    /// that has reached `u64::MAX` stays there.
    pub fn record(&mut self, tier: Tier)
        ensures
            tier == Tier::Preferred ==> final(self).fallback == old(self).fallback
                && final(self).preferred == if old(self).preferred < u64::MAX {
                old(self).preferred + 1
            } else {
                old(self).preferred as int
            },
            tier != Tier::Preferred ==> final(self).preferred == old(self).preferred
                && final(self).fallback == if old(self).fallback < u64::MAX {
                old(self).fallback + 1
            } else {
                old(self).fallback as int
            },
    {
        if tier == Tier::Preferred {
            if self.preferred < u64::MAX {
                self.preferred = self.preferred + 1;
            }
        } else {
            if self.fallback < u64::MAX {
                self.fallback = self.fallback + 1;
            }
        }
    }

    /// The number of polls counted.
    pub fn total(&self) -> (t: u128)
        ensures
            t == self.total_spec(),
    {
        self.preferred as u128 + self.fallback as u128
    }

    /// A usage report is due: a non-zero multiple of the cadence has been reached.
    pub fn report_due(&self) -> (due: bool)
        ensures
            due == (self.total_spec() > 0 && self.total_spec() % STATS_REPORT_EVERY as int == 0),
    {
        let t = self.total();
        t > 0 && t % (STATS_REPORT_EVERY as u128) == 0
    }

    /// The share of polls satisfied by the preferred tier, in whole percent,
    /// rounded down.
    pub fn preferred_percent(&self) -> (p: u64)
        requires
            self.total_spec() > 0,
        ensures
            p == self.preferred * 100 / self.total_spec(),
            p <= 100,
    {
        let t = self.total();
        proof {
            assert(self.preferred * 100 / (t as int) <= 100) by (nonlinear_arith)
                requires
                    self.preferred <= t,
                    t > 0,
            ;
        }
        (self.preferred as u128 * 100 / t) as u64
    }
}

} // verus!
