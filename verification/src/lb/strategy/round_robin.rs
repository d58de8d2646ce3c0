use crate::lb::balancer::server::Server;
use crate::lb::strategy::counter::RequestCounter;
use crate::lb::strategy::snapshot::{
    healthy_indices, healthy_positions, health_snapshot, index_of, lemma_healthy_positions,
    read_health,
};
use crate::lb::strategy::trait_def::{chosen, Strategy};
use std::sync::Arc;
use vstd::prelude::*;

verus! {

/// Round robin over the healthy servers: the request numbered `count` goes to
/// the healthy server at position `count % n` among the `n` healthy ones.
pub open spec fn round_robin_choice(healthy: Seq<bool>, count: int) -> Option<int> {
    let hp = healthy_positions(healthy);
    if hp.len() == 0 {
        None
    } else {
        Some(hp[count % (hp.len() as int)])
    }
}

/// Simple round robin over the healthy servers of the pool.
pub struct RoundRobin {
    counter: RequestCounter,
}

impl RoundRobin {
    /// A round robin whose request counter starts at zero.
    pub fn new() -> (r: Self) {
        RoundRobin { counter: RequestCounter::new() }
    }

    /// `count` is a request number this round robin's counter hands out.
    pub closed spec fn issued(&self, count: usize) -> bool {
        self.counter.issued(count)
    }
}

/// The round-robin choice for a health snapshot and a request number.
pub fn round_robin_pick(healthy: &[bool], count: usize) -> (r: Option<usize>)
    ensures
        index_of(r) == round_robin_choice(healthy@, count as int),
        r matches Some(i) ==> i < healthy@.len() && healthy@[i as int],
{
    let idx = healthy_indices(healthy);
    proof {
        lemma_healthy_positions(healthy@);
    }
    if idx.len() == 0 {
        return None;
    }
    let k = count % idx.len();
    proof {
        assert(idx@[k as int] as int == healthy_positions(healthy@)[k as int]);
    }
    Some(idx[k])
}

impl Strategy for RoundRobin {
    /// A server is chosen only as the round-robin choice for health flags read
    /// from the pool and a request number taken from the counter; nothing is
    /// chosen only when the flags read mark no server healthy.
    open spec fn picks(&self, servers: Seq<Arc<Server>>, chosen: Option<Arc<Server>>) -> bool {
        match chosen {
            Some(s) => exists|healthy: Seq<bool>, count: usize|
                {
                    &&& read_health(servers, healthy)
                    &&& self.issued(count)
                    &&& #[trigger] round_robin_choice(healthy, count as int) is Some
                    &&& s == servers[round_robin_choice(healthy, count as int)->0]
                },
            None => exists|healthy: Seq<bool>|
                read_health(servers, healthy) && #[trigger] healthy_positions(healthy).len() == 0,
        }
    }

    fn select<'a>(&self, servers: &'a [Arc<Server>]) -> (r: Option<&'a Arc<Server>>) {
        let healthy = health_snapshot(servers);
        if healthy_indices(&healthy).len() == 0 {
            return None;
        }
        let count = self.counter.take();
        match round_robin_pick(&healthy, count) {
            Some(i) => Some(&servers[i]),
            None => None,
        }
    }
}

/// `(c + j) % n` for `0 <= j < n`, spelled out without the modulo.
pub proof fn lemma_mod_shift(c: int, j: int, n: int)
    requires
        c >= 0,
        n > 0,
        0 <= j < n,
    ensures
        (c + j) % n == if c % n + j < n {
            c % n + j
        } else {
            c % n + j - n
        },
{
    vstd::arithmetic::div_mod::lemma_fundamental_div_mod(c, n);
    let q = c / n;
    let r = c % n;
    assert(q * n == n * q) by (nonlinear_arith);
    assert((q + 1) * n == q * n + n) by (nonlinear_arith);
    assert(0 <= r < n);
    if r + j < n {
        vstd::arithmetic::div_mod::lemma_fundamental_div_mod_converse(c + j, n, q, r + j);
    } else {
        vstd::arithmetic::div_mod::lemma_fundamental_div_mod_converse(c + j, n, q + 1, r + j - n);
    }
}

/// Fairness of round robin: while the healthy set does not change, the `n`
/// consecutive requests numbered `c, c + 1, ..., c + n - 1` go to `n` different
/// healthy servers, so each of the `n` healthy servers gets exactly one of them.
pub proof fn lemma_round_robin_cycle(healthy: Seq<bool>, c: nat)
    requires
        healthy_positions(healthy).len() > 0,
    ensures
        forall|j: int|
            0 <= j < healthy_positions(healthy).len() ==> {
                &&& #[trigger] round_robin_choice(healthy, c + j) is Some
                &&& 0 <= round_robin_choice(healthy, c + j)->0 < healthy.len()
                &&& healthy[round_robin_choice(healthy, c + j)->0]
            },
        forall|j1: int, j2: int|
            0 <= j1 < j2 < healthy_positions(healthy).len() ==> #[trigger] round_robin_choice(
                healthy,
                c + j1,
            ) != #[trigger] round_robin_choice(healthy, c + j2),
        forall|p: int|
            0 <= p < healthy.len() && #[trigger] healthy[p] ==> exists|j: int|
                0 <= j < healthy_positions(healthy).len() && #[trigger] round_robin_choice(
                    healthy,
                    c + j,
                ) == Some(p),
{
    let hp = healthy_positions(healthy);
    let n = hp.len() as int;
    lemma_healthy_positions(healthy);
    assert forall|j: int| 0 <= j < n implies {
        &&& #[trigger] round_robin_choice(healthy, c + j) is Some
        &&& 0 <= round_robin_choice(healthy, c + j)->0 < healthy.len()
        &&& healthy[round_robin_choice(healthy, c + j)->0]
    } by {
        lemma_mod_shift(c as int, j, n);
    }
    assert forall|j1: int, j2: int| 0 <= j1 < j2 < n implies #[trigger] round_robin_choice(
        healthy,
        c + j1,
    ) != #[trigger] round_robin_choice(healthy, c + j2) by {
        lemma_mod_shift(c as int, j1, n);
        lemma_mod_shift(c as int, j2, n);
        let k1 = (c + j1) % n;
        let k2 = (c + j2) % n;
        assert(k1 != k2);
        if k1 < k2 {
            assert(hp[k1] < hp[k2]);
        } else {
            assert(hp[k2] < hp[k1]);
        }
    }
    assert forall|p: int| 0 <= p < healthy.len() && #[trigger] healthy[p] implies exists|j: int|
        0 <= j < n && #[trigger] round_robin_choice(healthy, c + j) == Some(p) by {
        assert(hp.contains(p));
        let k = choose|k: int| 0 <= k < n && hp[k] == p;
        let r = (c as int) % n;
        let j = if k >= r {
            k - r
        } else {
            k - r + n
        };
        lemma_mod_shift(c as int, j, n);
        assert(round_robin_choice(healthy, c + j) == Some(p));
    }
}

/// Round robin only chooses a position that the snapshot marks healthy.
pub proof fn lemma_round_robin_choice_healthy(healthy: Seq<bool>, count: int)
    ensures
        round_robin_choice(healthy, count) matches Some(i) ==> 0 <= i < healthy.len()
            && healthy[i],
{
    lemma_healthy_positions(healthy);
    let n = healthy_positions(healthy).len() as int;
    if n > 0 {
        assert(0 <= count % n < n);
    }
}

/// A server that round robin selects is a server of the pool whose health
/// flag the selection read as true; nothing is selected only when every flag
/// was read as false.
pub proof fn lemma_round_robin_selects_healthy(
    rr: RoundRobin,
    servers: Seq<Arc<Server>>,
    chosen: Option<Arc<Server>>,
)
    requires
        rr.picks(servers, chosen),
    ensures
        chosen matches Some(s) ==> exists|i: int|
            0 <= i < servers.len() && servers[i] == s && #[trigger] servers[i].health_read(true),
        chosen is None ==> exists|healthy: Seq<bool>|
            read_health(servers, healthy) && forall|j: int|
                0 <= j < servers.len() ==> !#[trigger] healthy[j],
{
    match chosen {
        Some(s) => {
            let (healthy, count) = choose|healthy: Seq<bool>, count: usize|
                {
                    &&& read_health(servers, healthy)
                    &&& rr.issued(count)
                    &&& #[trigger] round_robin_choice(healthy, count as int) is Some
                    &&& s == servers[round_robin_choice(healthy, count as int)->0]
                };
            lemma_round_robin_choice_healthy(healthy, count as int);
            let i = round_robin_choice(healthy, count as int)->0;
            assert(servers[i].health_read(healthy[i]));
        },
        None => {
            let healthy = choose|healthy: Seq<bool>|
                read_health(servers, healthy) && #[trigger] healthy_positions(healthy).len() == 0;
            lemma_healthy_positions(healthy);
            assert forall|j: int| 0 <= j < servers.len() implies !#[trigger] healthy[j] by {
                if healthy[j] {
                    assert(healthy_positions(healthy).contains(j));
                }
            }
        },
    }
}

} // verus!
