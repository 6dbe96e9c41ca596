//! The consensus engine: majority votes, extremes and leaderboards over the
//! latest observation of each endpoint.
use vstd::prelude::*;
use vstd::set_lib::{lemma_int_range, lemma_len_subset, set_int_range};

use crate::models::{ConsensusStats, LeaderboardEntry, RPCResponse};
use crate::text::{decimal, decimal_text};

verus! {

/// How many entries each leaderboard holds at most.
pub const LEADERBOARD_SIZE: usize = 4;

/// The number of occurrences of `v` in `s`.
pub open spec fn count_of<A>(s: Seq<A>, v: A) -> nat
    decreases s.len(),
{
    if s.len() == 0 {
        0
    } else {
        count_of(s.drop_last(), v) + if s.last() == v { 1nat } else { 0nat }
    }
}

/// The block identifiers of the observations, in order.
pub open spec fn block_ids(s: Seq<RPCResponse>) -> Seq<Seq<char>> {
    s.map_values(|r: RPCResponse| r.blockhash@)
}

/// The slots of the observations, in order.
pub open spec fn slots(s: Seq<RPCResponse>) -> Seq<u64> {
    s.map_values(|r: RPCResponse| r.slot)
}

/// `i` holds a most frequent value of `s`, and no earlier position holds one.
pub open spec fn is_first_mode<A>(s: Seq<A>, i: int) -> bool {
    &&& 0 <= i < s.len()
    &&& forall|j: int| 0 <= j < s.len() ==> count_of(s, #[trigger] s[j]) <= count_of(s, s[i])
    &&& forall|j: int| 0 <= j < i ==> count_of(s, #[trigger] s[j]) < count_of(s, s[i])
}

/// The first position of a most frequent value (the majority vote, ties going
/// to the value seen first).
pub open spec fn first_mode<A>(s: Seq<A>) -> int {
    choose|i: int| is_first_mode(s, i)
}

/// `i` has the least latency, and no earlier observation has as little.
pub open spec fn is_first_fastest(s: Seq<RPCResponse>, i: int) -> bool {
    &&& 0 <= i < s.len()
    &&& forall|j: int| 0 <= j < s.len() ==> s[i].latency_ms <= #[trigger] s[j].latency_ms
    &&& forall|j: int| 0 <= j < i ==> #[trigger] s[j].latency_ms > s[i].latency_ms
}

/// `i` has the greatest latency, and no earlier observation has as much.
pub open spec fn is_first_slowest(s: Seq<RPCResponse>, i: int) -> bool {
    &&& 0 <= i < s.len()
    &&& forall|j: int| 0 <= j < s.len() ==> s[i].latency_ms >= #[trigger] s[j].latency_ms
    &&& forall|j: int| 0 <= j < i ==> #[trigger] s[j].latency_ms < s[i].latency_ms
}

/// The fastest observation, ties going to the first.
pub open spec fn fastest_index(s: Seq<RPCResponse>) -> int {
    choose|i: int| is_first_fastest(s, i)
}

/// The slowest observation, ties going to the first.
pub open spec fn slowest_index(s: Seq<RPCResponse>) -> int {
    choose|i: int| is_first_slowest(s, i)
}

/// The sum of all latencies.
pub open spec fn latency_sum(s: Seq<RPCResponse>) -> nat
    decreases s.len(),
{
    if s.len() == 0 {
        0
    } else {
        latency_sum(s.drop_last()) + s.last().latency_ms as nat
    }
}

/// The text that describes a signed slot difference between the fastest and
/// the slowest endpoint.
pub open spec fn skew_text(d: int) -> Seq<char> {
    if d == 0 {
        "no skew"@
    } else if d > 0 {
        "fastest ahead by "@ + decimal(d as nat) + " slots"@
    } else {
        "slowest ahead by "@ + decimal((-d) as nat) + " slots"@
    }
}

proof fn lemma_count_step<A>(s: Seq<A>, i: int, v: A)
    requires
        0 <= i < s.len(),
    ensures
        count_of(s.take(i + 1), v) == count_of(s.take(i), v) + if s[i] == v { 1nat } else { 0nat },
{
    assert(s.take(i + 1).drop_last() =~= s.take(i));
}

proof fn lemma_count_le_len<A>(s: Seq<A>, v: A)
    ensures
        count_of(s, v) <= s.len(),
    decreases s.len(),
{
    if s.len() > 0 {
        lemma_count_le_len(s.drop_last(), v);
    }
}

proof fn lemma_first_mode_unique<A>(s: Seq<A>, i: int)
    requires
        is_first_mode(s, i),
    ensures
        first_mode(s) == i,
{
    let c = first_mode(s);
    assert(is_first_mode(s, c));
    if c < i {
        assert(count_of(s, s[c]) < count_of(s, s[i]));
    } else if i < c {
        assert(count_of(s, s[i]) < count_of(s, s[c]));
    }
}

proof fn lemma_fastest_unique(s: Seq<RPCResponse>, i: int)
    requires
        is_first_fastest(s, i),
    ensures
        fastest_index(s) == i,
{
    let c = fastest_index(s);
    assert(is_first_fastest(s, c));
    if c < i {
        assert(s[c].latency_ms > s[i].latency_ms);
    } else if i < c {
        assert(s[i].latency_ms > s[c].latency_ms);
    }
}

proof fn lemma_slowest_unique(s: Seq<RPCResponse>, i: int)
    requires
        is_first_slowest(s, i),
    ensures
        slowest_index(s) == i,
{
    let c = slowest_index(s);
    assert(is_first_slowest(s, c));
    if c < i {
        assert(s[c].latency_ms < s[i].latency_ms);
    } else if i < c {
        assert(s[i].latency_ms < s[c].latency_ms);
    }
}

/// The number of observations whose block identifier is that of `responses[i]`.
fn count_block(responses: &[RPCResponse], i: usize) -> (c: usize)
    requires
        i < responses@.len(),
    ensures
        c == count_of(block_ids(responses@), responses@[i as int].blockhash@),
{
    let ghost ids = block_ids(responses@);
    let ghost v = responses@[i as int].blockhash@;
    let mut c: usize = 0;
    let mut j: usize = 0;
    while j < responses.len()
        invariant
            j <= responses@.len(),
            i < responses@.len(),
            ids == block_ids(responses@),
            v == responses@[i as int].blockhash@,
            c == count_of(ids.take(j as int), v),
        decreases responses@.len() - j,
    {
        proof {
            lemma_count_step(ids, j as int, v);
            lemma_count_le_len(ids.take(j as int), v);
        }
        if responses[j].blockhash == responses[i].blockhash {
            c = c + 1;
        }
        j = j + 1;
    }
    assert(ids.take(j as int) =~= ids);
    c
}

/// The number of observations whose slot is that of `responses[i]`.
fn count_slot(responses: &[RPCResponse], i: usize) -> (c: usize)
    requires
        i < responses@.len(),
    ensures
        c == count_of(slots(responses@), responses@[i as int].slot),
{
    let ghost ss = slots(responses@);
    let ghost v = responses@[i as int].slot;
    let mut c: usize = 0;
    let mut j: usize = 0;
    while j < responses.len()
        invariant
            j <= responses@.len(),
            i < responses@.len(),
            ss == slots(responses@),
            v == responses@[i as int].slot,
            c == count_of(ss.take(j as int), v),
        decreases responses@.len() - j,
    {
        proof {
            lemma_count_step(ss, j as int, v);
            lemma_count_le_len(ss.take(j as int), v);
        }
        if responses[j].slot == responses[i].slot {
            c = c + 1;
        }
        j = j + 1;
    }
    assert(ss.take(j as int) =~= ss);
    c
}

/// The position of the majority block identifier, with its number of votes.
fn block_majority(responses: &[RPCResponse]) -> (r: (usize, usize))
    requires
        responses@.len() > 0,
    ensures
        r.0 < responses@.len(),
        r.0 == first_mode(block_ids(responses@)),
        r.1 == count_of(block_ids(responses@), responses@[r.0 as int].blockhash@),
{
    let ghost ids = block_ids(responses@);
    let mut best: usize = 0;
    let mut best_count: usize = count_block(responses, 0);
    let mut i: usize = 1;
    while i < responses.len()
        invariant
            1 <= i <= responses@.len(),
            ids == block_ids(responses@),
            best < i,
            best_count == count_of(ids, ids[best as int]),
            forall|j: int| 0 <= j < i ==> count_of(ids, #[trigger] ids[j]) <= best_count,
            forall|j: int| 0 <= j < best ==> count_of(ids, #[trigger] ids[j]) < best_count,
        decreases responses@.len() - i,
    {
        let c = count_block(responses, i);
        if c > best_count {
            best = i;
            best_count = c;
        }
        i = i + 1;
    }
    proof {
        lemma_first_mode_unique(ids, best as int);
    }
    (best, best_count)
}

/// The position of the majority slot.
fn slot_majority(responses: &[RPCResponse]) -> (r: usize)
    requires
        responses@.len() > 0,
    ensures
        r < responses@.len(),
        r == first_mode(slots(responses@)),
{
    let ghost ss = slots(responses@);
    let mut best: usize = 0;
    let mut best_count: usize = count_slot(responses, 0);
    let mut i: usize = 1;
    while i < responses.len()
        invariant
            1 <= i <= responses@.len(),
            ss == slots(responses@),
            best < i,
            best_count == count_of(ss, ss[best as int]),
            forall|j: int| 0 <= j < i ==> count_of(ss, #[trigger] ss[j]) <= best_count,
            forall|j: int| 0 <= j < best ==> count_of(ss, #[trigger] ss[j]) < best_count,
        decreases responses@.len() - i,
    {
        let c = count_slot(responses, i);
        if c > best_count {
            best = i;
            best_count = c;
        }
        i = i + 1;
    }
    proof {
        lemma_first_mode_unique(ss, best as int);
    }
    best
}

/// The positions of the fastest and of the slowest observation.
fn latency_extremes(responses: &[RPCResponse]) -> (r: (usize, usize))
    requires
        responses@.len() > 0,
    ensures
        is_first_fastest(responses@, r.0 as int),
        is_first_slowest(responses@, r.1 as int),
        r.0 == fastest_index(responses@),
        r.1 == slowest_index(responses@),
{
    let ghost s = responses@;
    let mut lo: usize = 0;
    let mut hi: usize = 0;
    let mut i: usize = 1;
    while i < responses.len()
        invariant
            1 <= i <= s.len(),
            s == responses@,
            lo < i,
            hi < i,
            forall|j: int| 0 <= j < i ==> s[lo as int].latency_ms <= #[trigger] s[j].latency_ms,
            forall|j: int| 0 <= j < lo ==> #[trigger] s[j].latency_ms > s[lo as int].latency_ms,
            forall|j: int| 0 <= j < i ==> s[hi as int].latency_ms >= #[trigger] s[j].latency_ms,
            forall|j: int| 0 <= j < hi ==> #[trigger] s[j].latency_ms < s[hi as int].latency_ms,
        decreases s.len() - i,
    {
        if responses[i].latency_ms < responses[lo].latency_ms {
            lo = i;
        }
        if responses[i].latency_ms > responses[hi].latency_ms {
            hi = i;
        }
        i = i + 1;
    }
    proof {
        lemma_fastest_unique(s, lo as int);
        lemma_slowest_unique(s, hi as int);
    }
    (lo, hi)
}

/// The sum of all latencies.
fn total_latency(responses: &[RPCResponse]) -> (t: u128)
    ensures
        t == latency_sum(responses@),
        t <= responses@.len() * 0xffff_ffff_ffff_ffff,
{
    let ghost s = responses@;
    let mut t: u128 = 0;
    let mut i: usize = 0;
    while i < responses.len()
        invariant
            i <= s.len(),
            s == responses@,
            t == latency_sum(s.take(i as int)),
            t <= i * 0xffff_ffff_ffff_ffff,
        decreases s.len() - i,
    {
        proof {
            assert(s.take(i + 1).drop_last() =~= s.take(i as int));
            assert((i + 1) * 0xffff_ffff_ffff_ffffint == i * 0xffff_ffff_ffff_ffffint
                + 0xffff_ffff_ffff_ffffint) by (nonlinear_arith);
            assert(i < 0x1_0000_0000_0000_0000) by {
                assert(usize::MAX < 0x1_0000_0000_0000_0000);
            }
            assert((i + 1) * 0xffff_ffff_ffff_ffffint <= 0x1_0000_0000_0000_0000int
                * 0xffff_ffff_ffff_ffffint) by (nonlinear_arith)
                requires i < 0x1_0000_0000_0000_0000int;
        }
        t = t + responses[i].latency_ms as u128;
        i = i + 1;
    }
    assert(s.take(i as int) =~= s);
    t
}

/// The orders in which observations are ranked.
#[derive(Debug, Clone, Copy, PartialEq, Eq, Structural)]
pub enum Ranking {
    /// Ascending latency.
    ByLatency,
    /// Descending slot.
    BySlot,
    /// Descending capture time, newest first.
    ByRecency,
}

/// Observation `a` ranks no later than observation `b`; equal keys keep the
/// input order.
pub open spec fn ranks_before(order: Ranking, s: Seq<RPCResponse>, a: int, b: int) -> bool {
    match order {
        Ranking::ByLatency => s[a].latency_ms < s[b].latency_ms || (s[a].latency_ms
            == s[b].latency_ms && a <= b),
        Ranking::BySlot => s[a].slot > s[b].slot || (s[a].slot == s[b].slot && a <= b),
        Ranking::ByRecency => s[a].timestamp_ms > s[b].timestamp_ms || (s[a].timestamp_ms
            == s[b].timestamp_ms && a <= b),
    }
}

/// The positions as integers.
pub open spec fn positions(v: Seq<usize>) -> Seq<int> {
    v.map_values(|x: usize| x as int)
}

/// `idx` lists distinct observations, each of which ranks no later than every
/// observation not listed before it: a prefix of the stable sort of `s`.
pub open spec fn is_ranked_prefix(order: Ranking, s: Seq<RPCResponse>, idx: Seq<int>) -> bool {
    &&& forall|j: int| 0 <= j < idx.len() ==> 0 <= #[trigger] idx[j] < s.len()
    &&& forall|j: int, k: int| 0 <= j < k < idx.len() ==> idx[j] != idx[k]
    &&& forall|j: int, i: int|
        0 <= j < idx.len() && 0 <= i < s.len() && !#[trigger] idx.take(j).contains(i)
            ==> ranks_before(order, s, idx[j], i)
}

/// The value a leaderboard shows for an observation: its slot on the slot
/// board, its latency otherwise.
pub open spec fn ranked_value(order: Ranking, r: RPCResponse) -> u64 {
    match order {
        Ranking::BySlot => r.slot,
        _ => r.latency_ms,
    }
}

/// `e` is the leaderboard projection of `r`.
pub open spec fn is_entry_of(order: Ranking, e: LeaderboardEntry, r: RPCResponse) -> bool {
    &&& e.nickname@ == r.nickname@
    &&& e.value == ranked_value(order, r)
    &&& e.latency_ms == r.latency_ms
    &&& e.timestamp_ms == r.timestamp_ms
}

/// `e` is the leaderboard projection of one of the observations of `s`.
pub open spec fn is_entry_of_some(order: Ranking, e: LeaderboardEntry, s: Seq<RPCResponse>) -> bool {
    exists|i: int| 0 <= i < s.len() && #[trigger] is_entry_of(order, e, s[i])
}

/// The board holds the projection of `r`.
pub open spec fn on_board(order: Ranking, board: Seq<LeaderboardEntry>, r: RPCResponse) -> bool {
    exists|j: int| 0 <= j < board.len() && #[trigger] is_entry_of(order, board[j], r)
}

/// `r` ranks no better than the entry `e`.
pub open spec fn no_better_than(order: Ranking, e: LeaderboardEntry, r: RPCResponse) -> bool {
    match order {
        Ranking::ByLatency => r.latency_ms >= e.latency_ms,
        Ranking::BySlot => r.slot <= e.value,
        Ranking::ByRecency => r.timestamp_ms <= e.timestamp_ms,
    }
}

/// The number of entries of a leaderboard over `n` observations.
pub open spec fn board_len(n: int) -> int {
    if n < LEADERBOARD_SIZE { n } else { LEADERBOARD_SIZE as int }
}

/// `board` is the leaderboard of `s` in the given order: the first entries of
/// the stable sort, projected.
pub open spec fn is_leaderboard(order: Ranking, s: Seq<RPCResponse>, board: Seq<LeaderboardEntry>) -> bool {
    &&& board.len() == board_len(s.len() as int)
    &&& exists|idx: Seq<int>|
        {
            &&& idx.len() == board.len()
            &&& is_ranked_prefix(order, s, idx)
            &&& forall|j: int| 0 <= j < board.len() ==> is_entry_of(order, #[trigger] board[j], s[idx[j]])
        }
}

proof fn lemma_exists_unlisted(idx: Seq<int>, n: int)
    requires
        idx.len() < n,
        forall|j: int| 0 <= j < idx.len() ==> 0 <= #[trigger] idx[j] < n,
        forall|j: int, k: int| 0 <= j < k < idx.len() ==> idx[j] != idx[k],
    ensures
        exists|i: int| 0 <= i < n && !idx.contains(i),
{
    if forall|i: int| 0 <= i < n ==> idx.contains(i) {
        lemma_int_range(0, n);
        assert(idx.no_duplicates());
        idx.unique_seq_to_set();
        assert(set_int_range(0, n).subset_of(idx.to_set()));
        lemma_len_subset(set_int_range(0, n), idx.to_set());
    }
}

/// A list of `n` distinct positions below `n` lists every position below `n`.
pub(crate) proof fn lemma_positions_cover(idx: Seq<int>, n: int)
    requires
        idx.len() == n,
        forall|j: int| 0 <= j < idx.len() ==> 0 <= #[trigger] idx[j] < n,
        forall|j: int, k: int| 0 <= j < k < idx.len() ==> idx[j] != idx[k],
    ensures
        forall|k: int| 0 <= k < n ==> idx.contains(k),
{
    assert forall|k: int| 0 <= k < n implies idx.contains(k) by {
        if !idx.contains(k) {
            lemma_int_range(0, n);
            assert(idx.no_duplicates());
            idx.unique_seq_to_set();
            let rest = set_int_range(0, n).remove(k);
            assert(idx.to_set().subset_of(rest));
            lemma_len_subset(idx.to_set(), rest);
        }
    }
}

/// `a` ranks strictly before `b`, for `b < a`.
fn outranks(responses: &[RPCResponse], order: Ranking, a: usize, b: usize) -> (r: bool)
    requires
        b < a < responses@.len(),
    ensures
        r == !ranks_before(order, responses@, b as int, a as int),
{
    match order {
        Ranking::ByLatency => responses[a].latency_ms < responses[b].latency_ms,
        Ranking::BySlot => responses[a].slot > responses[b].slot,
        Ranking::ByRecency => responses[a].timestamp_ms > responses[b].timestamp_ms,
    }
}

/// The positions of the first `limit` observations in the stable sort by `order`.
pub(crate) fn rank_positions(responses: &[RPCResponse], order: Ranking, limit: usize) -> (idx: Vec<usize>)
    ensures
        idx@.len() == if limit < responses@.len() { limit as int } else { responses@.len() as int },
        is_ranked_prefix(order, responses@, positions(idx@)),
{
    let ghost s = responses@;
    let n = responses.len();
    let m = if limit < n { limit } else { n };
    let mut listed: Vec<bool> = Vec::new();
    let mut t: usize = 0;
    while t < n
        invariant
            t <= n,
            listed@.len() == t,
            forall|k: int| 0 <= k < t ==> !listed@[k],
        decreases n - t,
    {
        listed.push(false);
        t = t + 1;
    }
    let mut idx: Vec<usize> = Vec::new();
    while idx.len() < m
        invariant
            s == responses@,
            n == s.len(),
            m <= n,
            idx@.len() <= m,
            listed@.len() == n,
            is_ranked_prefix(order, s, positions(idx@)),
            forall|k: int| 0 <= k < n ==> (listed@[k] <==> positions(idx@).contains(k)),
        decreases m - idx@.len(),
    {
        let ghost p = positions(idx@);
        proof {
            lemma_exists_unlisted(p, n as int);
        }
        let mut best: usize = n;
        let mut i: usize = 0;
        while i < n
            invariant
                s == responses@,
                n == s.len(),
                listed@.len() == n,
                i <= n,
                best == n || (best < i && !listed@[best as int]),
                forall|k: int|
                    0 <= k < i && !listed@[k] ==> best < n && ranks_before(order, s, best as int, k),
            decreases n - i,
        {
            if !listed[i] {
                if best == n || outranks(responses, order, i, best) {
                    best = i;
                }
            }
            i = i + 1;
        }
        assert(best < n) by {
            let k = choose|k: int| 0 <= k < n && !p.contains(k);
            assert(!listed@[k]);
        }
        listed.set(best, true);
        idx.push(best);
        proof {
            let q = positions(idx@);
            assert(q =~= p.push(best as int));
            assert(q.take(p.len() as int) =~= p);
            assert forall|j: int| 0 <= j < p.len() implies q.take(j) =~= p.take(j) by {}
            assert forall|j: int, i2: int|
                0 <= j < q.len() && 0 <= i2 < s.len() && !#[trigger] q.take(j).contains(i2)
                implies ranks_before(order, s, q[j], i2) by {
                if j < p.len() {
                    assert(q.take(j) =~= p.take(j));
                } else {
                    assert(!listed@[i2] || i2 == best);
                }
            }
            assert forall|k: int| 0 <= k < n implies (listed@[k] <==> q.contains(k)) by {
                if k == best {
                    assert(q[p.len() as int] == k);
                } else if listed@[k] {
                    let w = choose|w: int| 0 <= w < p.len() && p[w] == k;
                    assert(q[w] == k);
                } else if q.contains(k) {
                    let w = choose|w: int| 0 <= w < q.len() && q[w] == k;
                    assert(p[w] == k);
                }
            }
        }
    }
    idx
}

/// The leaderboard of the observations in the given order.
fn leaderboard(responses: &[RPCResponse], order: Ranking) -> (board: Vec<LeaderboardEntry>)
    ensures
        is_leaderboard(order, responses@, board@),
{
    let idx = rank_positions(responses, order, LEADERBOARD_SIZE);
    let ghost p = positions(idx@);
    let mut board: Vec<LeaderboardEntry> = Vec::new();
    let mut j: usize = 0;
    while j < idx.len()
        invariant
            j <= idx@.len(),
            board@.len() == j,
            p == positions(idx@),
            forall|k: int| 0 <= k < idx@.len() ==> 0 <= #[trigger] p[k] < responses@.len(),
            forall|k: int| 0 <= k < j ==> is_entry_of(order, #[trigger] board@[k], responses@[p[k]]),
        decreases idx@.len() - j,
    {
        assert(0 <= p[j as int] < responses@.len());
        let r = &responses[idx[j]];
        let value = match order {
            Ranking::BySlot => r.slot,
            _ => r.latency_ms,
        };
        board.push(
            LeaderboardEntry {
                nickname: r.nickname.clone(),
                value,
                latency_ms: r.latency_ms,
                timestamp_ms: r.timestamp_ms,
            },
        );
        j = j + 1;
    }
    assert(idx@.len() == p.len());
    board
}

/// The figures of an empty snapshot.
pub open spec fn is_empty_stats(r: ConsensusStats) -> bool {
    &&& r.fastest_rpc@ == "No data"@
    &&& r.slowest_rpc@ == "No data"@
    &&& r.fastest_latency == 0
    &&& r.slowest_latency == 0
    &&& r.consensus_blockhash@ == "No data"@
    &&& r.consensus_slot == 0
    &&& r.consensus_count == 0
    &&& r.consensus_percentage == 0
    &&& r.total_rpcs == 0
    &&& r.latency_total == 0
    &&& r.average_latency == 0
    &&& r.slot_difference == 0
    &&& r.slot_skew@ == "No data"@
    &&& r.latency_leaderboard@.len() == 0
    &&& r.slot_leaderboard@.len() == 0
}

/// The figures of a non-empty snapshot `s`.
pub open spec fn is_stats_of(s: Seq<RPCResponse>, r: ConsensusStats) -> bool {
    let n = s.len();
    let fast = s[fastest_index(s)];
    let slow = s[slowest_index(s)];
    let major = s[first_mode(block_ids(s))];
    let votes = count_of(block_ids(s), major.blockhash@);
    &&& r.fastest_rpc@ == fast.nickname@
    &&& r.slowest_rpc@ == slow.nickname@
    &&& r.fastest_latency == fast.latency_ms
    &&& r.slowest_latency == slow.latency_ms
    &&& r.consensus_blockhash@ == major.blockhash@
    &&& r.consensus_count == votes
    &&& r.consensus_percentage == 100 * votes / n
    &&& r.consensus_slot == s[first_mode(slots(s))].slot
    &&& r.total_rpcs == n
    &&& r.latency_total == latency_sum(s)
    &&& r.average_latency == latency_sum(s) / n
    &&& r.slot_difference == fast.slot - slow.slot
    &&& r.slot_skew@ == skew_text(fast.slot - slow.slot)
    &&& is_leaderboard(Ranking::ByLatency, s, r.latency_leaderboard@)
    &&& is_leaderboard(Ranking::BySlot, s, r.slot_leaderboard@)
}

/// The figures of a snapshot, empty or not.
pub open spec fn consensus_of(s: Seq<RPCResponse>, r: ConsensusStats) -> bool {
    if s.len() == 0 {
        is_empty_stats(r)
    } else {
        is_stats_of(s, r)
    }
}

/// The text that describes the slot difference `fast - slow`.
fn skew_description(fast: u64, slow: u64) -> (t: String)
    ensures
        t@ == skew_text(fast - slow),
{
    if fast == slow {
        String::from_str("no skew")
    } else if fast > slow {
        let digits = decimal_text(fast - slow);
        String::from_str("fastest ahead by ").concat(digits.as_str()).concat(" slots")
    } else {
        let digits = decimal_text(slow - fast);
        String::from_str("slowest ahead by ").concat(digits.as_str()).concat(" slots")
    }
}

/// Majority vote, extremes, mean latency and leaderboards over the latest
/// observation of each endpoint. An empty snapshot gives the all-zero,
/// "No data" figures.
pub fn calculate_consensus(responses: &[RPCResponse]) -> (stats: ConsensusStats)
    ensures
        consensus_of(responses@, stats),
{
    let n = responses.len();
    if n == 0 {
        return ConsensusStats {
            fastest_rpc: String::from_str("No data"),
            slowest_rpc: String::from_str("No data"),
            fastest_latency: 0,
            slowest_latency: 0,
            consensus_blockhash: String::from_str("No data"),
            consensus_slot: 0,
            consensus_count: 0,
            consensus_percentage: 0,
            total_rpcs: 0,
            latency_total: 0,
            average_latency: 0,
            slot_difference: 0,
            slot_skew: String::from_str("No data"),
            latency_leaderboard: Vec::new(),
            slot_leaderboard: Vec::new(),
        };
    }
    let ghost s = responses@;
    let (major, votes) = block_majority(responses);
    let slot_pos = slot_majority(responses);
    let (fast, slow) = latency_extremes(responses);
    let total = total_latency(responses);
    proof {
        lemma_count_le_len(block_ids(s), s[major as int].blockhash@);
        assert((total as int) / (n as int) <= 0xffff_ffff_ffff_ffff) by (nonlinear_arith)
            requires
                total <= n * 0xffff_ffff_ffff_ffffint,
                n > 0,
        ;
        assert(100 * (votes as int) / (n as int) <= 100) by (nonlinear_arith)
            requires
                votes <= n,
                n > 0,
        ;
    }
    let percentage = (100 * votes as u128 / n as u128) as u64;
    let average = (total / n as u128) as u64;
    let f = &responses[fast];
    let w = &responses[slow];
    let difference = f.slot as i128 - w.slot as i128;
    ConsensusStats {
        fastest_rpc: f.nickname.clone(),
        slowest_rpc: w.nickname.clone(),
        fastest_latency: f.latency_ms,
        slowest_latency: w.latency_ms,
        consensus_blockhash: responses[major].blockhash.clone(),
        consensus_slot: responses[slot_pos].slot,
        consensus_count: votes,
        consensus_percentage: percentage,
        total_rpcs: n,
        latency_total: total,
        average_latency: average,
        slot_difference: difference,
        slot_skew: skew_description(f.slot, w.slot),
        latency_leaderboard: leaderboard(responses, Ranking::ByLatency),
        slot_leaderboard: leaderboard(responses, Ranking::BySlot),
    }
}

/// `s` with every occurrence of `v` taken out.
pub open spec fn without<A>(s: Seq<A>, v: A) -> Seq<A>
    decreases s.len(),
{
    if s.len() == 0 {
        s
    } else if s.last() == v {
        without(s.drop_last(), v)
    } else {
        without(s.drop_last(), v).push(s.last())
    }
}

proof fn lemma_count_push<A>(s: Seq<A>, x: A, w: A)
    ensures
        count_of(s.push(x), w) == count_of(s, w) + if x == w { 1nat } else { 0nat },
{
    assert(s.push(x).drop_last() =~= s);
}

proof fn lemma_without<A>(s: Seq<A>, v: A)
    ensures
        without(s, v).len() + count_of(s, v) == s.len(),
        forall|w: A| w != v ==> #[trigger] count_of(without(s, v), w) == count_of(s, w),
        forall|w: A| #[trigger] without(s, v).contains(w) <==> (s.contains(w) && w != v),
    decreases s.len(),
{
    if s.len() > 0 {
        let d = s.drop_last();
        let x = s.last();
        let t = without(d, v);
        lemma_without(d, v);
        assert(s =~= d.push(x));
        assert forall|w: A| s.contains(w) <==> (d.contains(w) || w == x) by {
            if s.contains(w) && w != x {
                let i = choose|i: int| 0 <= i < s.len() && s[i] == w;
                if i < d.len() {
                    assert(d[i] == w);
                }
            }
            if d.contains(w) {
                let i = choose|i: int| 0 <= i < d.len() && d[i] == w;
                assert(s[i] == w);
            }
            if w == x {
                assert(s[s.len() - 1] == w);
            }
        }
        assert forall|w: A| w != v implies count_of(without(s, v), w) == count_of(s, w) by {
            lemma_count_push(d, x, w);
            if x != v {
                lemma_count_push(t, x, w);
            }
        }
        if x != v {
            assert forall|w: A| t.push(x).contains(w) <==> (t.contains(w) || w == x) by {
                if t.push(x).contains(w) && w != x {
                    let i = choose|i: int| 0 <= i < t.push(x).len() && t.push(x)[i] == w;
                    if i < t.len() {
                        assert(t[i] == w);
                    }
                }
                if t.contains(w) {
                    let i = choose|i: int| 0 <= i < t.len() && t[i] == w;
                    assert(t.push(x)[i] == w);
                }
                if w == x {
                    assert(t.push(x)[t.len() as int] == w);
                }
            }
            assert(without(s, v) == t.push(x));
        } else {
            assert(without(s, v) == t);
        }
        assert forall|w: A| #[trigger] without(s, v).contains(w) <==> (s.contains(w) && w != v) by {
            assert(s.contains(w) <==> (d.contains(w) || w == x));
            assert(t.contains(w) <==> (d.contains(w) && w != v));
        }
    }
}

/// Pigeonhole: when no value occurs more than `bound` times, the sequence is no
/// longer than `bound` times the number of distinct values.
proof fn lemma_pigeonhole<A>(s: Seq<A>, bound: nat)
    requires
        forall|j: int| 0 <= j < s.len() ==> count_of(s, #[trigger] s[j]) <= bound,
    ensures
        s.len() <= bound * s.to_set().len(),
    decreases s.len(),
{
    if s.len() > 0 {
        let v = s.last();
        let t = without(s, v);
        lemma_without(s, v);
        assert(count_of(s, v) <= bound);
        assert(count_of(s, v) >= 1) by {
            assert(s.drop_last().push(v) =~= s);
            lemma_count_push(s.drop_last(), v, v);
        }
        assert forall|j: int| 0 <= j < t.len() implies count_of(t, #[trigger] t[j]) <= bound by {
            assert(t.contains(t[j]));
            let i = choose|i: int| 0 <= i < s.len() && s[i] == t[j];
        }
        lemma_pigeonhole(t, bound);
        assert(t.to_set() =~= s.to_set().remove(v));
        assert(s.to_set().contains(v)) by {
            assert(s[s.len() - 1] == v);
        }
        assert(s.to_set().finite()) by {
            s.lemma_cardinality_of_set();
        }
        assert(t.to_set().len() + 1 == s.to_set().len());
        assert(bound * t.to_set().len() + bound == bound * s.to_set().len()) by (nonlinear_arith)
            requires
                t.to_set().len() + 1 == s.to_set().len(),
        ;
    }
}

/// The position, among the first `i`, that a left-to-right scan for the
/// most frequent value settles on.
spec fn mode_scan<A>(s: Seq<A>, i: int) -> int
    decreases i,
{
    if i <= 1 {
        0
    } else {
        let b = mode_scan(s, i - 1);
        if count_of(s, s[i - 1]) > count_of(s, s[b]) {
            i - 1
        } else {
            b
        }
    }
}

proof fn lemma_mode_scan<A>(s: Seq<A>, i: int)
    requires
        1 <= i <= s.len(),
    ensures
        0 <= mode_scan(s, i) < i,
        forall|j: int| 0 <= j < i ==> count_of(s, #[trigger] s[j]) <= count_of(s, s[mode_scan(s, i)]),
        forall|j: int|
            0 <= j < mode_scan(s, i) ==> count_of(s, #[trigger] s[j]) < count_of(s, s[mode_scan(s, i)]),
    decreases i,
{
    if i > 1 {
        lemma_mode_scan(s, i - 1);
    }
}

proof fn lemma_first_mode_exists<A>(s: Seq<A>)
    requires
        s.len() > 0,
    ensures
        is_first_mode(s, first_mode(s)),
{
    lemma_mode_scan(s, s.len() as int);
    assert(is_first_mode(s, mode_scan(s, s.len() as int)));
}

/// In a non-empty snapshot with `k` distinct block identifiers, the majority
/// block identifier has at least `n / k` votes, rounded up, and the consensus
/// percentage is `100 * votes / n`, rounded down.
pub proof fn majority_share(s: Seq<RPCResponse>, stats: ConsensusStats)
    requires
        s.len() > 0,
        consensus_of(s, stats),
    ensures
        ({
            let k = block_ids(s).to_set().len() as int;
            &&& k >= 1
            &&& stats.consensus_count * k >= s.len()
            &&& stats.consensus_count >= (s.len() + k - 1) / k
        }),
        stats.consensus_percentage == 100 * (stats.consensus_count as int) / (s.len() as int),
{
    let ids = block_ids(s);
    lemma_first_mode_exists(ids);
    let m = first_mode(ids);
    let c = stats.consensus_count as int;
    assert(ids[m] == s[m].blockhash@);
    lemma_pigeonhole(ids, c as nat);
    let k = ids.to_set().len() as int;
    assert(ids.to_set().contains(ids[0]));
    assert(ids.to_set().finite()) by {
        ids.lemma_cardinality_of_set();
    }
    assert(k >= 1);
    assert(c >= (s.len() + k - 1) / k) by (nonlinear_arith)
        requires
            c * k >= s.len(),
            k >= 1,
    ;
}

/// Both leaderboards hold `min(4, n)` entries, ranked by ascending latency and
/// by descending slot respectively; each entry is the projection of one of the
/// observations; every observation left off a board ranks no better than its
/// last entry, and with at most four observations every one is on both boards.
pub proof fn leaderboards_ranked(s: Seq<RPCResponse>, stats: ConsensusStats)
    requires
        consensus_of(s, stats),
    ensures
        stats.latency_leaderboard@.len() == board_len(s.len() as int),
        stats.slot_leaderboard@.len() == board_len(s.len() as int),
        forall|j: int, k: int|
            0 <= j < k < stats.latency_leaderboard@.len() ==> #[trigger] stats.latency_leaderboard@[j].latency_ms
                <= #[trigger] stats.latency_leaderboard@[k].latency_ms,
        forall|j: int, k: int|
            0 <= j < k < stats.slot_leaderboard@.len() ==> #[trigger] stats.slot_leaderboard@[j].value
                >= #[trigger] stats.slot_leaderboard@[k].value,
        forall|j: int|
            0 <= j < stats.latency_leaderboard@.len() ==> is_entry_of_some(
                Ranking::ByLatency,
                #[trigger] stats.latency_leaderboard@[j],
                s,
            ),
        forall|j: int|
            0 <= j < stats.slot_leaderboard@.len() ==> is_entry_of_some(
                Ranking::BySlot,
                #[trigger] stats.slot_leaderboard@[j],
                s,
            ),
        forall|i: int|
            0 <= i < s.len() ==> on_board(Ranking::ByLatency, stats.latency_leaderboard@, #[trigger] s[i])
                || s[i].latency_ms >= stats.latency_leaderboard@.last().latency_ms,
        forall|i: int|
            0 <= i < s.len() ==> on_board(Ranking::BySlot, stats.slot_leaderboard@, #[trigger] s[i])
                || s[i].slot <= stats.slot_leaderboard@.last().value,
        s.len() <= LEADERBOARD_SIZE ==> forall|i: int|
            0 <= i < s.len() ==> on_board(Ranking::ByLatency, stats.latency_leaderboard@, #[trigger] s[i])
                && on_board(Ranking::BySlot, stats.slot_leaderboard@, s[i]),
{
    if s.len() > 0 {
        lemma_board_ranked(Ranking::ByLatency, s, stats.latency_leaderboard@);
        lemma_board_ranked(Ranking::BySlot, s, stats.slot_leaderboard@);
    }
}

proof fn lemma_board_ranked(order: Ranking, s: Seq<RPCResponse>, board: Seq<LeaderboardEntry>)
    requires
        is_leaderboard(order, s, board),
    ensures
        forall|j: int, k: int|
            0 <= j < k < board.len() ==> match order {
                Ranking::BySlot => board[j].value >= board[k].value,
                Ranking::ByLatency => board[j].latency_ms <= board[k].latency_ms,
                Ranking::ByRecency => board[j].timestamp_ms >= board[k].timestamp_ms,
            },
        forall|j: int| 0 <= j < board.len() ==> is_entry_of_some(order, #[trigger] board[j], s),
        forall|i: int|
            0 <= i < s.len() ==> on_board(order, board, #[trigger] s[i]) || no_better_than(
                order,
                board.last(),
                s[i],
            ),
        s.len() <= LEADERBOARD_SIZE ==> forall|i: int| 0 <= i < s.len() ==> on_board(order, board, #[trigger] s[i]),
{
    let idx = choose|idx: Seq<int>|
        {
            &&& idx.len() == board.len()
            &&& is_ranked_prefix(order, s, idx)
            &&& forall|j: int| 0 <= j < board.len() ==> is_entry_of(order, #[trigger] board[j], s[idx[j]])
        };
    assert forall|j: int, k: int| 0 <= j < k < board.len() implies match order {
        Ranking::BySlot => board[j].value >= board[k].value,
        Ranking::ByLatency => board[j].latency_ms <= board[k].latency_ms,
        Ranking::ByRecency => board[j].timestamp_ms >= board[k].timestamp_ms,
    } by {
        assert(0 <= idx[j] < s.len());
        assert(0 <= idx[k] < s.len());
        if idx.take(j).contains(idx[k]) {
            let w = choose|w: int| 0 <= w < j && idx.take(j)[w] == idx[k];
            assert(idx[w] == idx[k]);
        }
        assert(ranks_before(order, s, idx[j], idx[k]));
        assert(is_entry_of(order, board[j], s[idx[j]]));
        assert(is_entry_of(order, board[k], s[idx[k]]));
    }
    assert forall|i: int| 0 <= i < s.len() implies on_board(order, board, #[trigger] s[i]) || no_better_than(
        order,
        board.last(),
        s[i],
    ) by {
        let last = board.len() - 1;
        if idx.contains(i) {
            let j = choose|j: int| 0 <= j < idx.len() && idx[j] == i;
            assert(is_entry_of(order, board[j], s[idx[j]]));
        } else {
            assert(!idx.take(last).contains(i)) by {
                if idx.take(last).contains(i) {
                    let w = choose|w: int| 0 <= w < last && idx.take(last)[w] == i;
                    assert(idx[w] == i);
                }
            }
            assert(ranks_before(order, s, idx[last], i));
            assert(is_entry_of(order, board[last], s[idx[last]]));
        }
    }
    if s.len() <= LEADERBOARD_SIZE {
        lemma_positions_cover(idx, s.len() as int);
        assert forall|i: int| 0 <= i < s.len() implies on_board(order, board, #[trigger] s[i]) by {
            assert(idx.contains(i));
            let j = choose|j: int| 0 <= j < idx.len() && idx[j] == i;
            assert(is_entry_of(order, board[j], s[idx[j]]));
        }
    }
    assert forall|j: int| 0 <= j < board.len() implies is_entry_of_some(order, #[trigger] board[j], s) by {
        let i = idx[j];
        assert(0 <= i < s.len());
        assert(is_entry_of(order, board[j], s[i]));
    }
}

/// `a` and `b` hold the same observation, field by field.
pub open spec fn same_observation(a: RPCResponse, b: RPCResponse) -> bool {
    &&& a.timestamp_ms == b.timestamp_ms
    &&& a.slot == b.slot
    &&& a.blockhash@ == b.blockhash@
    &&& a.latency_ms == b.latency_ms
    &&& a.rpc_url@ == b.rpc_url@
    &&& a.nickname@ == b.nickname@
}

/// `a` and `b` hold the same observations in the same order.
pub open spec fn same_observations(a: Seq<RPCResponse>, b: Seq<RPCResponse>) -> bool {
    &&& a.len() == b.len()
    &&& forall|k: int| 0 <= k < a.len() ==> same_observation(#[trigger] a[k], b[k])
}

pub(crate) proof fn lemma_ranked_prefix_transfer(
    order: Ranking,
    a: Seq<RPCResponse>,
    b: Seq<RPCResponse>,
    idx: Seq<int>,
)
    requires
        same_observations(a, b),
        is_ranked_prefix(order, a, idx),
    ensures
        is_ranked_prefix(order, b, idx),
{
    assert forall|j: int, i: int|
        0 <= j < idx.len() && 0 <= i < b.len() && !#[trigger] idx.take(j).contains(i) implies ranks_before(
        order,
        b,
        idx[j],
        i,
    ) by {
        assert(ranks_before(order, a, idx[j], i));
        assert(same_observation(a[idx[j]], b[idx[j]]));
        assert(same_observation(a[i], b[i]));
    }
}

} // verus!
