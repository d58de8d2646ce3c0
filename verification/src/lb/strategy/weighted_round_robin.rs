use crate::lb::balancer::server::{lemma_server_view_fits, Server};
use crate::lb::strategy::round_robin::lemma_mod_shift;
use crate::lb::strategy::counter::RequestCounter;
use crate::lb::strategy::snapshot::{
    healthy_indices, healthy_positions, health_snapshot, index_of, lemma_healthy_positions,
    read_health,
};
use crate::lb::strategy::trait_def::{chosen, pool_weight, Strategy};
use std::sync::Arc;
use vstd::prelude::*;

verus! {

/// The weights of the healthy servers of a snapshot, in pool order.
pub open spec fn healthy_weights(healthy: Seq<bool>, weights: Seq<usize>) -> Seq<nat> {
    healthy_positions(healthy).map_values(|p: int| weights[p] as nat)
}

/// Sum of a sequence of weights.
pub open spec fn weight_total(ws: Seq<nat>) -> nat
    decreases ws.len(),
{
    if ws.len() == 0 {
        0
    } else {
        weight_total(ws.drop_last()) + ws.last()
    }
}

/// The first slot, from `k` on, whose running weight total exceeds `target`.
pub open spec fn weighted_slot_from(ws: Seq<nat>, target: int, k: int) -> Option<int>
    decreases ws.len() - k,
{
    if k < 0 || k >= ws.len() {
        None
    } else if target < weight_total(ws.take(k + 1)) {
        Some(k)
    } else {
        weighted_slot_from(ws, target, k + 1)
    }
}

/// The slot that serves `target` when the line `0 .. total` is cut into
/// consecutive blocks, one per slot, as long as its weight.
pub open spec fn weighted_slot(ws: Seq<nat>, target: int) -> Option<int> {
    weighted_slot_from(ws, target, 0)
}

/// Weighted round robin: the request numbered `count` goes to the healthy
/// server whose block holds `count % total`, where `total` is the sum of the
/// healthy weights; nothing is chosen when that sum is zero.
pub open spec fn weighted_choice(healthy: Seq<bool>, weights: Seq<usize>, count: int) -> Option<
    int,
> {
    let ws = healthy_weights(healthy, weights);
    let total = weight_total(ws);
    if total == 0 {
        None
    } else {
        match weighted_slot(ws, count % (total as int)) {
            Some(k) => Some(healthy_positions(healthy)[k]),
            None => None,
        }
    }
}

/// Weighted round robin over the healthy servers: a server of weight 2 gets
/// twice as many requests as one of weight 1.
pub struct WeightedRoundRobin {
    counter: RequestCounter,
}

impl WeightedRoundRobin {
    /// A weighted round robin whose request counter starts at zero.
    pub fn new() -> (r: Self) {
        WeightedRoundRobin { counter: RequestCounter::new() }
    }

    /// `count` is a request number this strategy's counter hands out.
    pub closed spec fn issued(&self, count: usize) -> bool {
        self.counter.issued(count)
    }
}

/// The weights of the servers of a pool, in pool order.
pub open spec fn weights_of(servers: Seq<Arc<Server>>) -> Seq<usize> {
    servers.map_values(|s: Arc<Server>| s@.weight as usize)
}

/// Extending a prefix by one slot adds that slot's weight.
pub proof fn lemma_weight_total_step(ws: Seq<nat>, k: int)
    requires
        0 <= k < ws.len(),
    ensures
        weight_total(ws.take(k + 1)) == weight_total(ws.take(k)) + ws[k],
{
    assert(ws.take(k + 1).drop_last() =~= ws.take(k));
}

/// A prefix weighs no more than the whole.
pub proof fn lemma_weight_total_prefix(ws: Seq<nat>, k: int)
    requires
        0 <= k <= ws.len(),
    ensures
        weight_total(ws.take(k)) <= weight_total(ws),
    decreases ws.len() - k,
{
    if k < ws.len() {
        lemma_weight_total_step(ws, k);
        lemma_weight_total_prefix(ws, k + 1);
    } else {
        assert(ws.take(k) =~= ws);
    }
}

/// A weight total grows with the prefix it sums.
pub proof fn lemma_weight_total_monotone(ws: Seq<nat>, i: int, j: int)
    requires
        0 <= i <= j <= ws.len(),
    ensures
        weight_total(ws.take(i)) <= weight_total(ws.take(j)),
    decreases j - i,
{
    if i < j {
        lemma_weight_total_step(ws, j - 1);
        lemma_weight_total_monotone(ws, i, j - 1);
    }
}

/// A slot chosen from `k` on is at least `k`.
pub proof fn lemma_weighted_slot_from_ge(ws: Seq<nat>, target: int, k: int)
    ensures
        weighted_slot_from(ws, target, k) matches Some(j) ==> k <= j < ws.len(),
    decreases ws.len() - k,
{
    if 0 <= k < ws.len() && target >= weight_total(ws.take(k + 1)) {
        lemma_weighted_slot_from_ge(ws, target, k + 1);
    }
}

/// The block characterisation: from `k` on, the slot chosen for `target` is
/// the one whose block `[before, before + weight)` holds it.
pub proof fn lemma_weighted_slot_from(ws: Seq<nat>, target: int, k: int, m: int)
    requires
        0 <= k <= m < ws.len(),
        weight_total(ws.take(k)) <= target,
    ensures
        weighted_slot_from(ws, target, k) == Some(m) <==> weight_total(ws.take(m)) <= target
            < weight_total(ws.take(m)) + ws[m],
    decreases m - k,
{
    lemma_weight_total_step(ws, k);
    lemma_weight_total_step(ws, m);
    lemma_weighted_slot_from_ge(ws, target, k + 1);
    if k < m {
        if target < weight_total(ws.take(k + 1)) {
            lemma_weight_total_monotone(ws, k + 1, m);
            assert(weighted_slot_from(ws, target, k) == Some(k));
            assert(weight_total(ws.take(m)) > target);
        } else {
            assert(weighted_slot_from(ws, target, k) == weighted_slot_from(ws, target, k + 1));
            lemma_weighted_slot_from(ws, target, k + 1, m);
        }
    }
}

/// The weights of the servers of a pool, one per position.
pub fn pool_weights(servers: &[Arc<Server>]) -> (r: Vec<usize>)
    ensures
        r@.len() == servers@.len(),
        forall|i: int| 0 <= i < r@.len() ==> #[trigger] r@[i] == servers@[i]@.weight,
        r@ == weights_of(servers@),
{
    let mut r: Vec<usize> = Vec::new();
    let mut i: usize = 0;
    while i < servers.len()
        invariant
            i <= servers@.len(),
            r@.len() == i,
            forall|j: int| 0 <= j < r@.len() ==> #[trigger] r@[j] == servers@[j]@.weight,
        decreases servers@.len() - i,
    {
        r.push(servers[i].get_weight());
        i = i + 1;
    }
    assert(r@ =~= weights_of(servers@));
    r
}

/// The healthy servers of a snapshot weigh no more than the whole pool.
pub proof fn lemma_healthy_weight_bound(
    healthy: Seq<bool>,
    servers: Seq<Arc<Server>>,
    weights: Seq<usize>,
)
    requires
        healthy.len() == servers.len(),
        weights.len() >= servers.len(),
        forall|i: int| 0 <= i < servers.len() ==> #[trigger] weights[i] == servers[i]@.weight,
    ensures
        weight_total(healthy_weights(healthy, weights)) <= pool_weight(servers),
    decreases servers.len(),
{
    if servers.len() > 0 {
        let h0 = healthy.drop_last();
        let s0 = servers.drop_last();
        lemma_healthy_weight_bound(h0, s0, weights);
        let ws = healthy_weights(healthy, weights);
        let ws0 = healthy_weights(h0, weights);
        if healthy.last() {
            assert(ws.drop_last() =~= ws0);
        } else {
            assert(ws =~= ws0);
        }
    }
}

/// Sum of the weights of the healthy servers of a snapshot.
pub fn healthy_weight_sum(healthy: &[bool], weights: &[usize]) -> (total: usize)
    requires
        weights@.len() == healthy@.len(),
        weight_total(healthy_weights(healthy@, weights@)) <= usize::MAX,
    ensures
        total == weight_total(healthy_weights(healthy@, weights@)),
{
    let idx = healthy_indices(healthy);
    let ghost hp = healthy_positions(healthy@);
    let ghost ws = healthy_weights(healthy@, weights@);
    proof {
        lemma_healthy_positions(healthy@);
    }
    let mut total: usize = 0;
    let mut k: usize = 0;
    while k < idx.len()
        invariant
            idx@.len() == hp.len(),
            ws.len() == hp.len(),
            forall|j: int| 0 <= j < idx@.len() ==> #[trigger] idx@[j] as int == hp[j],
            forall|j: int| 0 <= j < hp.len() ==> 0 <= #[trigger] hp[j] < healthy@.len(),
            weights@.len() == healthy@.len(),
            weight_total(ws) <= usize::MAX,
            ws == healthy_weights(healthy@, weights@),
            hp == healthy_positions(healthy@),
            k <= idx@.len(),
            total == weight_total(ws.take(k as int)),
        decreases idx@.len() - k,
    {
        proof {
            lemma_weight_total_step(ws, k as int);
            lemma_weight_total_prefix(ws, k + 1);
            assert(idx@[k as int] as int == hp[k as int]);
            assert(ws[k as int] == weights@[hp[k as int]] as nat);
        }
        total = total + weights[idx[k]];
        k = k + 1;
    }
    proof {
        assert(ws.take(ws.len() as int) =~= ws);
    }
    total
}

/// The weighted round-robin choice for a health snapshot, the servers'
/// weights and a request number.
pub fn weighted_round_robin_pick(healthy: &[bool], weights: &[usize], count: usize) -> (r: Option<
    usize,
>)
    requires
        weights@.len() == healthy@.len(),
        weight_total(healthy_weights(healthy@, weights@)) <= usize::MAX,
    ensures
        index_of(r) == weighted_choice(healthy@, weights@, count as int),
        r matches Some(i) ==> i < healthy@.len() && healthy@[i as int] && weights@[i as int] > 0,
        r is None <==> weight_total(healthy_weights(healthy@, weights@)) == 0,
{
    let idx = healthy_indices(healthy);
    let ghost hp = healthy_positions(healthy@);
    let ghost ws = healthy_weights(healthy@, weights@);
    proof {
        lemma_healthy_positions(healthy@);
    }
    let total = healthy_weight_sum(healthy, weights);
    if total == 0 {
        return None;
    }
    let ghost t = (count as int) % (total as int);
    let mut target = count % total;
    let mut k: usize = 0;
    while k < idx.len()
        invariant
            idx@.len() == hp.len(),
            ws.len() == hp.len(),
            forall|j: int| 0 <= j < idx@.len() ==> #[trigger] idx@[j] as int == hp[j],
            forall|j: int| 0 <= j < hp.len() ==> 0 <= #[trigger] hp[j] < healthy@.len(),
            forall|j: int| 0 <= j < hp.len() ==> healthy@[#[trigger] hp[j]],
            weights@.len() == healthy@.len(),
            ws == healthy_weights(healthy@, weights@),
            hp == healthy_positions(healthy@),
            total == weight_total(ws),
            total > 0,
            0 <= t < total,
            t == (count as int) % (total as int),
            k <= idx@.len(),
            target + weight_total(ws.take(k as int)) == t,
            weighted_slot(ws, t) == weighted_slot_from(ws, t, k as int),
        decreases idx@.len() - k,
    {
        proof {
            lemma_weight_total_step(ws, k as int);
            assert(idx@[k as int] as int == hp[k as int]);
            assert(ws[k as int] == weights@[hp[k as int]] as nat);
        }
        let w = weights[idx[k]];
        if target < w {
            proof {
                assert(weighted_slot_from(ws, t, k as int) == Some(k as int));
                assert(weighted_slot(ws, (count as int) % (weight_total(ws) as int)) == Some(
                    k as int,
                ));
                assert(idx@[k as int] as int == hp[k as int]);
            }
            return Some(idx[k]);
        }
        target = target - w;
        k = k + 1;
    }
    proof {
        assert(ws.take(k as int) =~= ws);
    }
    None
}

impl Strategy for WeightedRoundRobin {
    /// A server is chosen only as the weighted choice for health flags read
    /// from the pool, the servers' weights and a request number taken from the
    /// counter; nothing is chosen only when the servers read as healthy weigh
    /// nothing in total.
    open spec fn picks(&self, servers: Seq<Arc<Server>>, chosen: Option<Arc<Server>>) -> bool {
        match chosen {
            Some(s) => exists|healthy: Seq<bool>, count: usize|
                {
                    &&& read_health(servers, healthy)
                    &&& self.issued(count)
                    &&& #[trigger] weighted_choice(healthy, weights_of(servers), count as int) is Some
                    &&& s == servers[weighted_choice(healthy, weights_of(servers), count as int)->0]
                },
            None => exists|healthy: Seq<bool>|
                read_health(servers, healthy) && #[trigger] weight_total(
                    healthy_weights(healthy, weights_of(servers)),
                ) == 0,
        }
    }

    fn select<'a>(&self, servers: &'a [Arc<Server>]) -> (r: Option<&'a Arc<Server>>)
        ensures
            r matches Some(s) ==> s@.weight > 0,
    {
        let healthy = health_snapshot(servers);
        if healthy_indices(&healthy).len() == 0 {
            return None;
        }
        let weights = pool_weights(servers);
        proof {
            lemma_healthy_weight_bound(healthy@, servers@, weights@);
        }
        if healthy_weight_sum(&healthy, &weights) == 0 {
            return None;
        }
        let count = self.counter.take();
        match weighted_round_robin_pick(&healthy, &weights, count) {
            Some(i) => Some(&servers[i]),
            None => None,
        }
    }
}

/// How many targets in `a .. b` are served by slot `k`.
pub open spec fn slot_hits(ws: Seq<nat>, k: int, a: int, b: int) -> nat
    decreases b - a,
{
    if b <= a {
        0
    } else {
        slot_hits(ws, k, a, b - 1) + if weighted_slot(ws, b - 1) == Some(k) {
            1nat
        } else {
            0nat
        }
    }
}

/// How many of the requests numbered `c .. c + m` go to the server at
/// position `p` of the pool.
pub open spec fn requests_served(
    healthy: Seq<bool>,
    weights: Seq<usize>,
    p: int,
    c: int,
    m: int,
) -> nat
    decreases m,
{
    if m <= 0 {
        0
    } else {
        requests_served(healthy, weights, p, c, m - 1) + if weighted_choice(
            healthy,
            weights,
            c + m - 1,
        ) == Some(p) {
            1nat
        } else {
            0nat
        }
    }
}

/// Counting hits over `a .. c` is counting over `a .. b` and `b .. c`.
pub proof fn lemma_slot_hits_split(ws: Seq<nat>, k: int, a: int, b: int, c: int)
    requires
        a <= b <= c,
    ensures
        slot_hits(ws, k, a, c) == slot_hits(ws, k, a, b) + slot_hits(ws, k, b, c),
    decreases c - b,
{
    if b < c {
        lemma_slot_hits_split(ws, k, a, b, c - 1);
    }
}

/// Slot `k` serves the targets of its block `[before, before + ws[k])` and no
/// other: among the first `n` targets it serves `min(max(n - before, 0), ws[k])`.
pub proof fn lemma_slot_hits_prefix(ws: Seq<nat>, k: int, n: int)
    requires
        0 <= k < ws.len(),
        0 <= n,
    ensures
        slot_hits(ws, k, 0, n) == if n <= weight_total(ws.take(k)) {
            0
        } else if n >= weight_total(ws.take(k)) + ws[k] {
            ws[k] as int
        } else {
            n - weight_total(ws.take(k))
        },
    decreases n,
{
    if n > 0 {
        lemma_slot_hits_prefix(ws, k, n - 1);
        assert(ws.take(0) =~= Seq::<nat>::empty());
        lemma_weighted_slot_from(ws, n - 1, 0, k);
    }
}

/// Over one full turn of the targets `0 .. total`, each slot serves exactly
/// as many targets as its weight.
pub proof fn lemma_slot_hits_full_turn(ws: Seq<nat>, k: int)
    requires
        0 <= k < ws.len(),
    ensures
        slot_hits(ws, k, 0, weight_total(ws) as int) == ws[k],
{
    lemma_slot_hits_prefix(ws, k, weight_total(ws) as int);
    lemma_weight_total_step(ws, k);
    lemma_weight_total_prefix(ws, k + 1);
}

/// The request numbered `c` goes to the `k`-th healthy server exactly when its
/// target is served by slot `k`.
proof fn lemma_choice_is_slot(healthy: Seq<bool>, weights: Seq<usize>, k: int, c: int)
    requires
        0 <= k < healthy_positions(healthy).len(),
        weight_total(healthy_weights(healthy, weights)) > 0,
    ensures
        (weighted_choice(healthy, weights, c) == Some(healthy_positions(healthy)[k])) == (
        weighted_slot(
            healthy_weights(healthy, weights),
            c % (weight_total(healthy_weights(healthy, weights)) as int),
        ) == Some(k)),
{
    let ws = healthy_weights(healthy, weights);
    let hp = healthy_positions(healthy);
    let t = c % (weight_total(ws) as int);
    lemma_healthy_positions(healthy);
    lemma_weighted_slot_from_ge(ws, t, 0);
    if let Some(j) = weighted_slot(ws, t) {
        if j != k {
            if j < k {
                assert(hp[j] < hp[k]);
            } else {
                assert(hp[k] < hp[j]);
            }
        }
    }
}

/// Requests `c .. c + m` hit the targets `r .. r + m`, wrapping to `0`
/// after `total`, where `r = c % total`.
proof fn lemma_requests_served_turn(
    healthy: Seq<bool>,
    weights: Seq<usize>,
    k: int,
    c: nat,
    m: int,
)
    requires
        0 <= k < healthy_positions(healthy).len(),
        weight_total(healthy_weights(healthy, weights)) > 0,
        0 <= m <= weight_total(healthy_weights(healthy, weights)),
    ensures
        ({
            let ws = healthy_weights(healthy, weights);
            let total = weight_total(ws) as int;
            let r = (c as int) % total;
            requests_served(healthy, weights, healthy_positions(healthy)[k], c as int, m) == if m
                <= total - r {
                slot_hits(ws, k, r, r + m)
            } else {
                slot_hits(ws, k, r, total) + slot_hits(ws, k, 0, m - (total - r))
            }
        }),
    decreases m,
{
    let ws = healthy_weights(healthy, weights);
    let total = weight_total(ws) as int;
    let r = (c as int) % total;
    if m > 0 {
        lemma_requests_served_turn(healthy, weights, k, c, m - 1);
        lemma_choice_is_slot(healthy, weights, k, c + m - 1);
        lemma_mod_shift(c as int, m - 1, total);
        if m - 1 == total - r {
            assert(slot_hits(ws, k, 0, 0) == 0);
        }
    }
}

/// Weighted fairness: while the healthy set does not change, among any
/// `total` consecutive requests (`total` being the sum of the healthy
/// weights) each healthy server gets exactly as many as its weight; a server
/// of weight 2 gets twice as many as one of weight 1.
pub proof fn lemma_weighted_round_robin_turn(
    healthy: Seq<bool>,
    weights: Seq<usize>,
    c: nat,
    p: int,
)
    requires
        weights.len() == healthy.len(),
        0 <= p < healthy.len(),
        healthy[p],
        weight_total(healthy_weights(healthy, weights)) > 0,
    ensures
        requests_served(
            healthy,
            weights,
            p,
            c as int,
            weight_total(healthy_weights(healthy, weights)) as int,
        ) == weights[p],
{
    let ws = healthy_weights(healthy, weights);
    let total = weight_total(ws) as int;
    let hp = healthy_positions(healthy);
    lemma_healthy_positions(healthy);
    assert(hp.contains(p));
    let k = choose|k: int| 0 <= k < hp.len() && hp[k] == p;
    let r = (c as int) % total;
    lemma_requests_served_turn(healthy, weights, k, c, total);
    if r == 0 {
        assert(slot_hits(ws, k, 0, 0) == 0);
    } else {
        lemma_slot_hits_split(ws, k, 0, r, total);
    }
    lemma_slot_hits_full_turn(ws, k);
}

/// Weighted round robin only chooses a position that the snapshot marks
/// healthy and whose weight is positive.
pub proof fn lemma_weighted_choice_healthy(healthy: Seq<bool>, weights: Seq<usize>, count: int)
    ensures
        weighted_choice(healthy, weights, count) matches Some(i) ==> 0 <= i < healthy.len()
            && healthy[i] && weights[i] > 0,
{
    let ws = healthy_weights(healthy, weights);
    let hp = healthy_positions(healthy);
    let total = weight_total(ws) as int;
    lemma_healthy_positions(healthy);
    if total > 0 {
        let t = count % total;
        assert(0 <= t < total);
        lemma_weighted_slot_from_ge(ws, t, 0);
        if let Some(k) = weighted_slot(ws, t) {
            assert(ws.take(0) =~= Seq::<nat>::empty());
            lemma_weighted_slot_from(ws, t, 0, k);
            assert(ws[k] == weights[hp[k]] as nat);
        }
    }
}

/// A server that weighted round robin selects is a server of the pool whose
/// health flag the selection read as true and whose weight is positive;
/// nothing is selected only when the servers read as healthy weigh nothing.
pub proof fn lemma_weighted_round_robin_selects_healthy(
    wrr: WeightedRoundRobin,
    servers: Seq<Arc<Server>>,
    chosen: Option<Arc<Server>>,
)
    requires
        wrr.picks(servers, chosen),
    ensures
        chosen matches Some(s) ==> s@.weight > 0 && exists|i: int|
            0 <= i < servers.len() && servers[i] == s && #[trigger] servers[i].health_read(true),
        chosen is None ==> exists|healthy: Seq<bool>|
            read_health(servers, healthy) && forall|j: int|
                0 <= j < servers.len() && #[trigger] healthy[j] ==> servers[j]@.weight == 0,
{
    match chosen {
        Some(s) => {
            let (healthy, count) = choose|healthy: Seq<bool>, count: usize|
                {
                    &&& read_health(servers, healthy)
                    &&& wrr.issued(count)
                    &&& #[trigger] weighted_choice(healthy, weights_of(servers), count as int)
                        is Some
                    &&& s == servers[weighted_choice(
                        healthy,
                        weights_of(servers),
                        count as int,
                    )->0]
                };
            lemma_weighted_choice_healthy(healthy, weights_of(servers), count as int);
            let i = weighted_choice(healthy, weights_of(servers), count as int)->0;
            assert(servers[i].health_read(healthy[i]));
            lemma_server_view_fits(servers[i]);
        },
        None => {
            let healthy = choose|healthy: Seq<bool>|
                read_health(servers, healthy) && #[trigger] weight_total(
                    healthy_weights(healthy, weights_of(servers)),
                ) == 0;
            let ws = healthy_weights(healthy, weights_of(servers));
            let hp = healthy_positions(healthy);
            lemma_healthy_positions(healthy);
            assert forall|j: int|
                0 <= j < servers.len() && #[trigger] healthy[j] implies servers[j]@.weight
                == 0 by {
                assert(hp.contains(j));
                let k = choose|k: int| 0 <= k < hp.len() && hp[k] == j;
                lemma_weight_total_step(ws, k);
                lemma_weight_total_prefix(ws, k + 1);
                lemma_server_view_fits(servers[j]);
                assert(ws[k] == weights_of(servers)[j] as nat);
            }
        },
    }
}

} // verus!
