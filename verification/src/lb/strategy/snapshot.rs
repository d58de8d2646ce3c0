use crate::lb::balancer::server::Server;
use std::sync::Arc;
use vstd::prelude::*;

verus! {

/// Positions of the healthy entries of a health snapshot, in pool order.
pub open spec fn healthy_positions(healthy: Seq<bool>) -> Seq<int>
    decreases healthy.len(),
{
    if healthy.len() == 0 {
        seq![]
    } else {
        let rest = healthy_positions(healthy.drop_last());
        if healthy.last() {
            rest.push(healthy.len() - 1)
        } else {
            rest
        }
    }
}

/// An optional index read as a mathematical integer.
pub open spec fn index_of(r: Option<usize>) -> Option<int> {
    match r {
        Some(i) => Some(i as int),
        None => None,
    }
}

/// The healthy positions are exactly the healthy indices, each once, in
/// increasing order.
pub proof fn lemma_healthy_positions(healthy: Seq<bool>)
    ensures
        healthy_positions(healthy).len() <= healthy.len(),
        forall|k: int|
            0 <= k < healthy_positions(healthy).len() ==> {
                &&& 0 <= #[trigger] healthy_positions(healthy)[k] < healthy.len()
                &&& healthy[healthy_positions(healthy)[k]]
            },
        forall|k1: int, k2: int|
            0 <= k1 < k2 < healthy_positions(healthy).len() ==> healthy_positions(healthy)[k1]
                < healthy_positions(healthy)[k2],
        forall|p: int|
            0 <= p < healthy.len() && healthy[p] ==> #[trigger] healthy_positions(healthy).contains(
                p,
            ),
    decreases healthy.len(),
{
    if healthy.len() > 0 {
        let init = healthy.drop_last();
        lemma_healthy_positions(init);
        let rest = healthy_positions(init);
        assert forall|p: int| 0 <= p < healthy.len() && healthy[p] implies #[trigger] healthy_positions(
            healthy,
        ).contains(p) by {
            if p < healthy.len() - 1 {
                assert(init[p] == healthy[p]);
                assert(rest.contains(p));
                let k = choose|k: int| 0 <= k < rest.len() && rest[k] == p;
                if healthy.last() {
                    assert(healthy_positions(healthy)[k] == p);
                }
            } else {
                assert(healthy_positions(healthy)[rest.len() as int] == p);
            }
        }
    }
}

/// `healthy` holds, position by position, values read from the health flags
/// of the pool's servers.
pub open spec fn read_health(servers: Seq<Arc<Server>>, healthy: Seq<bool>) -> bool {
    &&& healthy.len() == servers.len()
    &&& forall|i: int| 0 <= i < servers.len() ==> #[trigger] servers[i].health_read(healthy[i])
}

/// `conns` holds, position by position, values read from the connection
/// counters of the pool's servers.
pub open spec fn read_connections(servers: Seq<Arc<Server>>, conns: Seq<usize>) -> bool {
    &&& conns.len() == servers.len()
    &&& forall|i: int| 0 <= i < servers.len() ==> #[trigger] servers[i].connections_read(conns[i])
}

/// Reads the health flag of every server of the pool, in pool order.
pub fn health_snapshot(servers: &[Arc<Server>]) -> (r: Vec<bool>)
    ensures
        read_health(servers@, r@),
{
    let mut r: Vec<bool> = Vec::new();
    let mut i: usize = 0;
    while i < servers.len()
        invariant
            i <= servers@.len(),
            r@.len() == i,
            forall|j: int| 0 <= j < i ==> #[trigger] servers@[j].health_read(r@[j]),
        decreases servers@.len() - i,
    {
        r.push(servers[i].is_healthy());
        i = i + 1;
    }
    r
}

/// The indices of the healthy entries of a snapshot, in order.
pub fn healthy_indices(healthy: &[bool]) -> (r: Vec<usize>)
    ensures
        r@.len() == healthy_positions(healthy@).len(),
        forall|k: int| 0 <= k < r@.len() ==> #[trigger] r@[k] as int == healthy_positions(healthy@)[k],
{
    let mut r: Vec<usize> = Vec::new();
    let mut i: usize = 0;
    while i < healthy.len()
        invariant
            i <= healthy@.len(),
            r@.len() == healthy_positions(healthy@.take(i as int)).len(),
            forall|k: int|
                0 <= k < r@.len() ==> #[trigger] r@[k] as int == healthy_positions(
                    healthy@.take(i as int),
                )[k],
        decreases healthy@.len() - i,
    {
        assert(healthy@.take(i + 1).drop_last() =~= healthy@.take(i as int));
        if healthy[i] {
            r.push(i);
        }
        i = i + 1;
    }
    assert(healthy@.take(healthy@.len() as int) =~= healthy@);
    r
}

} // verus!
