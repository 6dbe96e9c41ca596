//! Record logic of the time-series store: keys, the retention sweep's
//! selection, query filtering and the latest observation of each endpoint.
//! Reading and writing the table is the caller's part.
use vstd::prelude::*;

use crate::consensus::{
    is_ranked_prefix, lemma_positions_cover, ranks_before, lemma_ranked_prefix_transfer, positions, rank_positions, same_observation,
    same_observations, Ranking,
};
use crate::consensus::{calculate_consensus, consensus_of};
use crate::models::{copy_response, ConsensusStats, RPCResponse};
use crate::text::{decimal, decimal_text, occurs_in, text_contains};

verus! {

/// How long an observation is kept, in seconds.
pub const RETENTION_SECS: i64 = 3600;

/// How often the retention sweep runs, in seconds.
pub const SWEEP_INTERVAL_SECS: u64 = 60;

/// How often the endpoints are polled, in milliseconds.
pub const POLL_INTERVAL_MS: u64 = 2000;

/// A stored record as read back from the table: its key and its decoded value.
#[derive(Debug, Clone)]
pub struct StoredRecord {
    pub key: Vec<u8>,
    pub response: RPCResponse,
}

/// The key of an observation of `label` captured at `unix_secs`.
pub open spec fn key_text(label: Seq<char>, unix_secs: nat) -> Seq<char> {
    label + ":"@ + decimal(unix_secs)
}

/// The key under which an observation of `label` captured at `unix_secs` is
/// stored: the label, a colon and the decimal seconds.
pub fn record_key(label: &str, unix_secs: u64) -> (k: String)
    ensures
        k@ == key_text(label@, unix_secs as nat),
{
    let digits = decimal_text(unix_secs);
    String::from_str(label).concat(":").concat(digits.as_str())
}

/// The observation is older than the retention horizon at `now_secs`.
pub open spec fn is_expired_at(r: RPCResponse, now_secs: int) -> bool {
    r.timestamp_ms < (now_secs - RETENTION_SECS) * 1000
}

/// Whether the retention sweep at `now_secs` evicts the observation.
pub fn is_expired(r: &RPCResponse, now_secs: i64) -> (b: bool)
    ensures
        b == is_expired_at(*r, now_secs as int),
{
    (r.timestamp_ms as i128) < (now_secs as i128 - RETENTION_SECS as i128) * 1000
}

/// The keys that the sweep at `now_secs` deletes, in scan order.
pub open spec fn expired_keys_of(s: Seq<StoredRecord>, now_secs: int) -> Seq<Seq<u8>>
    decreases s.len(),
{
    if s.len() == 0 {
        Seq::empty()
    } else {
        let rest = expired_keys_of(s.drop_last(), now_secs);
        if is_expired_at(s.last().response, now_secs) {
            rest.push(s.last().key@)
        } else {
            rest
        }
    }
}

/// The byte strings held by the vectors.
pub open spec fn key_views(v: Seq<Vec<u8>>) -> Seq<Seq<u8>> {
    v.map_values(|k: Vec<u8>| k@)
}

/// The keys of the scanned records that the retention sweep at `now_secs`
/// deletes in one batch.
pub fn expired_keys(records: &[StoredRecord], now_secs: i64) -> (keys: Vec<Vec<u8>>)
    ensures
        key_views(keys@) == expired_keys_of(records@, now_secs as int),
{
    let ghost s = records@;
    let mut keys: Vec<Vec<u8>> = Vec::new();
    let mut i: usize = 0;
    while i < records.len()
        invariant
            i <= s.len(),
            s == records@,
            key_views(keys@) == expired_keys_of(s.take(i as int), now_secs as int),
        decreases s.len() - i,
    {
        proof {
            assert(s.take(i + 1).drop_last() =~= s.take(i as int));
        }
        if is_expired(&records[i].response, now_secs) {
            let k = records[i].key.clone();
            assert(k@ == s[i as int].key@);
            let ghost before = keys@;
            keys.push(k);
            assert(key_views(keys@) =~= key_views(before).push(s[i as int].key@));
        }
        i = i + 1;
    }
    assert(s.take(i as int) =~= s);
    keys
}

proof fn lemma_expired_keys_contains(s: Seq<StoredRecord>, now_secs: int, x: Seq<u8>)
    ensures
        expired_keys_of(s, now_secs).contains(x) <==> exists|k: int|
            0 <= k < s.len() && is_expired_at(#[trigger] s[k].response, now_secs) && s[k].key@ == x,
    decreases s.len(),
{
    if s.len() > 0 {
        let d = s.drop_last();
        let rest = expired_keys_of(d, now_secs);
        lemma_expired_keys_contains(d, now_secs, x);
        if expired_keys_of(s, now_secs).contains(x) {
            if is_expired_at(s.last().response, now_secs) && x == s.last().key@ {
                assert(is_expired_at(s[s.len() - 1].response, now_secs));
            } else {
                let w = choose|w: int|
                    0 <= w < expired_keys_of(s, now_secs).len() && expired_keys_of(s, now_secs)[w] == x;
                if is_expired_at(s.last().response, now_secs) {
                    assert(rest.push(s.last().key@)[w] == x);
                    if w < rest.len() {
                        assert(rest[w] == x);
                    }
                }
                assert(rest.contains(x));
                let k = choose|k: int|
                    0 <= k < d.len() && is_expired_at(#[trigger] d[k].response, now_secs) && d[k].key@ == x;
                assert(s[k] == d[k]);
            }
        }
        if exists|k: int|
            0 <= k < s.len() && is_expired_at(#[trigger] s[k].response, now_secs) && s[k].key@ == x {
            let k = choose|k: int|
                0 <= k < s.len() && is_expired_at(#[trigger] s[k].response, now_secs) && s[k].key@ == x;
            if k == s.len() - 1 {
                assert(expired_keys_of(s, now_secs) == rest.push(x));
                assert(rest.push(x)[rest.len() as int] == x);
            } else {
                assert(d[k] == s[k]);
                assert(rest.contains(x));
                let w = choose|w: int| 0 <= w < rest.len() && rest[w] == x;
                if is_expired_at(s.last().response, now_secs) {
                    assert(rest.push(s.last().key@)[w] == x);
                }
            }
        }
    }
}

/// The retention sweep at `now_secs` deletes the key of an observation
/// captured two hours earlier, and keeps the key of one captured thirty
/// minutes earlier when no other record shares that key.
pub proof fn retention_horizon(s: Seq<StoredRecord>, now_secs: int, i: int)
    requires
        0 <= i < s.len(),
    ensures
        s[i].response.timestamp_ms == (now_secs - 7200) * 1000 ==> expired_keys_of(s, now_secs).contains(
            s[i].key@,
        ),
        s[i].response.timestamp_ms == (now_secs - 1800) * 1000 && (forall|k: int|
            0 <= k < s.len() && k != i ==> #[trigger] s[k].key@ != s[i].key@) ==> !expired_keys_of(
            s,
            now_secs,
        ).contains(s[i].key@),
{
    lemma_expired_keys_contains(s, now_secs, s[i].key@);
}

/// The filter of a metrics query: an optional substring of the endpoint
/// address and optional inclusive bounds on the capture time, in Unix seconds.
#[derive(Debug, Clone)]
pub struct MetricsQuery {
    pub rpc: Option<String>,
    pub from: Option<i64>,
    pub to: Option<i64>,
}

/// The query accepts the observation.
pub open spec fn accepts(q: MetricsQuery, r: RPCResponse) -> bool {
    &&& (q.rpc matches Some(f) ==> occurs_in(f@, r.rpc_url@))
    &&& (q.from matches Some(a) ==> r.timestamp_ms >= a * 1000)
    &&& (q.to matches Some(b) ==> r.timestamp_ms <= b * 1000)
}

/// Whether the query accepts the observation.
pub fn query_accepts(q: &MetricsQuery, r: &RPCResponse) -> (b: bool)
    ensures
        b == accepts(*q, *r),
{
    let address_ok = match &q.rpc {
        Some(f) => text_contains(r.rpc_url.as_str(), f.as_str()),
        None => true,
    };
    let from_ok = match q.from {
        Some(a) => r.timestamp_ms as i128 >= a as i128 * 1000,
        None => true,
    };
    let to_ok = match q.to {
        Some(b) => r.timestamp_ms as i128 <= b as i128 * 1000,
        None => true,
    };
    address_ok && from_ok && to_ok
}

/// The observations of `s` that the query accepts, in order.
pub open spec fn matching(s: Seq<RPCResponse>, q: MetricsQuery) -> Seq<RPCResponse>
    decreases s.len(),
{
    if s.len() == 0 {
        Seq::empty()
    } else {
        let rest = matching(s.drop_last(), q);
        if accepts(q, s.last()) {
            rest.push(s.last())
        } else {
            rest
        }
    }
}

/// `p` is `r` with its network address cleared.
pub open spec fn is_public_copy(p: RPCResponse, r: RPCResponse) -> bool {
    &&& p.timestamp_ms == r.timestamp_ms
    &&& p.slot == r.slot
    &&& p.blockhash@ == r.blockhash@
    &&& p.latency_ms == r.latency_ms
    &&& p.rpc_url@ == Seq::<char>::empty()
    &&& p.nickname@ == r.nickname@
}

/// `out` is the answer to `q` over `s`: the accepted observations, newest
/// first (equal times in scan order), with their addresses cleared.
pub open spec fn is_query_result(s: Seq<RPCResponse>, q: MetricsQuery, out: Seq<RPCResponse>) -> bool {
    let m = matching(s, q);
    &&& out.len() == m.len()
    &&& exists|idx: Seq<int>|
        {
            &&& idx.len() == m.len()
            &&& is_ranked_prefix(Ranking::ByRecency, m, idx)
            &&& forall|j: int| 0 <= j < out.len() ==> is_public_copy(#[trigger] out[j], m[idx[j]])
        }
}

/// The copy of an observation that is sent out: its address cleared.
fn public_copy(r: &RPCResponse) -> (p: RPCResponse)
    ensures
        is_public_copy(p, *r),
{
    RPCResponse {
        timestamp_ms: r.timestamp_ms,
        slot: r.slot,
        blockhash: r.blockhash.clone(),
        latency_ms: r.latency_ms,
        rpc_url: String::new(),
        nickname: r.nickname.clone(),
    }
}

/// The scanned observations that the query accepts, newest first, with their
/// addresses cleared.
pub fn select_records(records: &[RPCResponse], q: &MetricsQuery) -> (out: Vec<RPCResponse>)
    ensures
        is_query_result(records@, *q, out@),
{
    let ghost s = records@;
    let mut kept: Vec<RPCResponse> = Vec::new();
    let mut i: usize = 0;
    while i < records.len()
        invariant
            i <= s.len(),
            s == records@,
            same_observations(kept@, matching(s.take(i as int), *q)),
        decreases s.len() - i,
    {
        proof {
            assert(s.take(i + 1).drop_last() =~= s.take(i as int));
            assert(s.take(i + 1).last() == s[i as int]);
        }
        if query_accepts(q, &records[i]) {
            kept.push(copy_response(&records[i]));
        }
        i = i + 1;
    }
    assert(s.take(i as int) =~= s);
    let ghost m = matching(s, *q);
    let idx = rank_positions(kept.as_slice(), Ranking::ByRecency, kept.len());
    let ghost p = positions(idx@);
    proof {
        lemma_ranked_prefix_transfer(Ranking::ByRecency, kept@, m, p);
    }
    let mut out: Vec<RPCResponse> = Vec::new();
    let mut j: usize = 0;
    while j < idx.len()
        invariant
            j <= idx@.len(),
            idx@.len() == kept@.len(),
            p == positions(idx@),
            same_observations(kept@, m),
            is_ranked_prefix(Ranking::ByRecency, m, p),
            out@.len() == j,
            forall|k: int| 0 <= k < j ==> is_public_copy(#[trigger] out@[k], m[p[k]]),
        decreases idx@.len() - j,
    {
        assert(0 <= p[j as int] < kept@.len());
        let c = public_copy(&kept[idx[j]]);
        assert(same_observation(kept@[p[j as int]], m[p[j as int]]));
        out.push(c);
        j = j + 1;
    }
    assert(p.len() == m.len());
    out
}

/// `p` is the public copy of an observation of `s` that `q` accepts.
pub open spec fn answers_from(q: MetricsQuery, p: RPCResponse, s: Seq<RPCResponse>) -> bool {
    exists|i: int| 0 <= i < s.len() && accepts(q, s[i]) && #[trigger] is_public_copy(p, s[i])
}

proof fn lemma_matching(s: Seq<RPCResponse>, q: MetricsQuery)
    ensures
        forall|k: int|
            0 <= k < matching(s, q).len() ==> accepts(q, #[trigger] matching(s, q)[k]) && exists|i: int|
                0 <= i < s.len() && s[i] == matching(s, q)[k],
    decreases s.len(),
{
    if s.len() > 0 {
        let d = s.drop_last();
        lemma_matching(d, q);
        let m = matching(s, q);
        let rest = matching(d, q);
        assert forall|k: int| 0 <= k < m.len() implies accepts(q, #[trigger] m[k]) && exists|i: int|
            0 <= i < s.len() && s[i] == m[k] by {
            if k < rest.len() {
                assert(m[k] == rest[k]);
                let i = choose|i: int| 0 <= i < d.len() && d[i] == rest[k];
                assert(s[i] == m[k]);
            } else {
                assert(m[k] == s[s.len() - 1]);
            }
        }
    }
}

/// The answer holds the address-cleared copy of `r`.
pub open spec fn answered_in(out: Seq<RPCResponse>, r: RPCResponse) -> bool {
    exists|j: int| 0 <= j < out.len() && #[trigger] is_public_copy(out[j], r)
}

proof fn lemma_matching_complete(s: Seq<RPCResponse>, q: MetricsQuery)
    ensures
        forall|i: int| 0 <= i < s.len() && accepts(q, #[trigger] s[i]) ==> matching(s, q).contains(s[i]),
    decreases s.len(),
{
    if s.len() > 0 {
        let d = s.drop_last();
        lemma_matching_complete(d, q);
        let rest = matching(d, q);
        let m = matching(s, q);
        assert forall|i: int| 0 <= i < s.len() && accepts(q, #[trigger] s[i]) implies m.contains(s[i]) by {
            if i == s.len() - 1 {
                assert(m == rest.push(s[i]));
                assert(m[rest.len() as int] == s[i]);
            } else {
                assert(d[i] == s[i]);
                assert(rest.contains(s[i]));
                let w = choose|w: int| 0 <= w < rest.len() && rest[w] == s[i];
                assert(m[w] == s[i]);
            }
        }
    }
}

/// Every observation in a query's answer is the address-cleared copy of a
/// scanned observation that the query accepts (its address holds the `rpc`
/// text, its capture time lies within `from` and `to`, both inclusive); every
/// accepted observation has its copy in the answer, which holds exactly as
/// many records as were accepted; and the answer runs from newest to oldest.
pub proof fn query_answer_filtered(s: Seq<RPCResponse>, q: MetricsQuery, out: Seq<RPCResponse>)
    requires
        is_query_result(s, q, out),
    ensures
        forall|j: int| 0 <= j < out.len() ==> answers_from(q, #[trigger] out[j], s),
        forall|i: int| 0 <= i < s.len() && accepts(q, #[trigger] s[i]) ==> answered_in(out, s[i]),
        out.len() == matching(s, q).len(),
        forall|j: int, k: int|
            0 <= j < k < out.len() ==> #[trigger] out[j].timestamp_ms >= #[trigger] out[k].timestamp_ms,
{
    let m = matching(s, q);
    lemma_matching(s, q);
    lemma_matching_complete(s, q);
    let idx = choose|idx: Seq<int>|
        {
            &&& idx.len() == m.len()
            &&& is_ranked_prefix(Ranking::ByRecency, m, idx)
            &&& forall|j: int| 0 <= j < out.len() ==> is_public_copy(#[trigger] out[j], m[idx[j]])
        };
    lemma_positions_cover(idx, m.len() as int);
    assert forall|j: int| 0 <= j < out.len() implies answers_from(q, #[trigger] out[j], s) by {
        let x = idx[j];
        assert(0 <= x < m.len());
        assert(is_public_copy(out[j], m[x]));
        assert(accepts(q, m[x]));
        let i = choose|i: int| 0 <= i < s.len() && s[i] == m[x];
        assert(is_public_copy(out[j], s[i]));
    }
    assert forall|i: int| 0 <= i < s.len() && accepts(q, #[trigger] s[i]) implies answered_in(out, s[i]) by {
        assert(m.contains(s[i]));
        let k = choose|k: int| 0 <= k < m.len() && m[k] == s[i];
        assert(idx.contains(k));
        let j = choose|j: int| 0 <= j < idx.len() && idx[j] == k;
        assert(is_public_copy(out[j], m[idx[j]]));
        assert(is_public_copy(out[j], s[i]));
    }
    assert forall|j: int, k: int| 0 <= j < k < out.len() implies #[trigger] out[j].timestamp_ms
        >= #[trigger] out[k].timestamp_ms by {
        let a = idx[j];
        let b = idx[k];
        assert(0 <= a < m.len() && 0 <= b < m.len());
        if idx.take(j).contains(b) {
            let w = choose|w: int| 0 <= w < j && idx.take(j)[w] == b;
            assert(idx[w] == b);
        }
        assert(ranks_before(Ranking::ByRecency, m, a, b));
        assert(is_public_copy(out[j], m[a]));
        assert(is_public_copy(out[k], m[b]));
    }
}

/// Some position listed in `p` holds an observation of `label`.
pub open spec fn label_seen(s: Seq<RPCResponse>, p: Seq<int>, label: Seq<char>) -> bool {
    exists|j: int| 0 <= j < p.len() && #[trigger] s[p[j]].nickname@ == label
}

/// The positions, among the first `n`, of the first observation of each label.
pub open spec fn first_positions(s: Seq<RPCResponse>, n: int) -> Seq<int>
    decreases n,
{
    if n <= 0 {
        Seq::empty()
    } else {
        let p = first_positions(s, n - 1);
        if label_seen(s, p, s[n - 1].nickname@) {
            p
        } else {
            p.push(n - 1)
        }
    }
}

/// `snapshot` holds the latest observation of each label of the newest-first
/// scan `s`, in scan order.
pub open spec fn is_latest_snapshot(s: Seq<RPCResponse>, snapshot: Seq<RPCResponse>) -> bool {
    let firsts = first_positions(s, s.len() as int);
    &&& snapshot.len() == firsts.len()
    &&& forall|j: int| 0 <= j < snapshot.len() ==> same_observation(#[trigger] snapshot[j], s[firsts[j]])
}

/// The latest observation of each endpoint label, from a scan that runs
/// newest first: the first observation of each label, in scan order.
pub fn latest_per_label(records: &[RPCResponse]) -> (out: Vec<RPCResponse>)
    ensures
        is_latest_snapshot(records@, out@),
{
    let ghost s = records@;
    let mut out: Vec<RPCResponse> = Vec::new();
    let mut i: usize = 0;
    while i < records.len()
        invariant
            i <= s.len(),
            s == records@,
            out@.len() == first_positions(s, i as int).len(),
            forall|k: int|
                0 <= k < out@.len() ==> 0 <= #[trigger] first_positions(s, i as int)[k] < i,
            forall|k: int|
                0 <= k < out@.len() ==> same_observation(
                    #[trigger] out@[k],
                    s[first_positions(s, i as int)[k]],
                ),
        decreases s.len() - i,
    {
        let ghost p = first_positions(s, i as int);
        let mut seen = false;
        let mut j: usize = 0;
        while j < out.len()
            invariant
                j <= out@.len(),
                i < s.len(),
                s == records@,
                p == first_positions(s, i as int),
                out@.len() == p.len(),
                forall|k: int| 0 <= k < out@.len() ==> 0 <= #[trigger] p[k] < i,
                forall|k: int| 0 <= k < out@.len() ==> same_observation(#[trigger] out@[k], s[p[k]]),
                seen == exists|k: int| 0 <= k < j && #[trigger] s[p[k]].nickname@ == s[i as int].nickname@,
            decreases out@.len() - j,
        {
            assert(same_observation(out@[j as int], s[p[j as int]]));
            if out[j].nickname == records[i].nickname {
                seen = true;
            }
            j = j + 1;
        }
        assert(seen == label_seen(s, p, s[i as int].nickname@));
        if !seen {
            let c = copy_response(&records[i]);
            out.push(c);
            assert(first_positions(s, i + 1) == p.push(i as int));
        } else {
            assert(first_positions(s, i + 1) == p);
        }
        i = i + 1;
    }
    out
}

/// The answer to a metrics query over a newest-first scan of the table: the
/// accepted observations with their addresses cleared, and the consensus
/// figures over the latest observation of each label, whatever the filter.
pub fn get_metrics(records: &[RPCResponse], q: &MetricsQuery) -> (r: (Vec<RPCResponse>, ConsensusStats))
    ensures
        is_query_result(records@, *q, r.0@),
        exists|snapshot: Seq<RPCResponse>|
            is_latest_snapshot(records@, snapshot) && #[trigger] consensus_of(snapshot, r.1),
{
    let latest = latest_per_label(records);
    let stats = calculate_consensus(latest.as_slice());
    let selected = select_records(records, q);
    assert(is_latest_snapshot(records@, latest@));
    let r = (selected, stats);
    assert(is_latest_snapshot(records@, latest@) && consensus_of(latest@, r.1));
    r
}

} // verus!
