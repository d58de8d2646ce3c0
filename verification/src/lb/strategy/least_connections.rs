use crate::lb::balancer::server::Server;
use crate::lb::strategy::snapshot::{health_snapshot, read_connections, read_health};
use crate::lb::strategy::trait_def::{chosen, Strategy};
use std::sync::Arc;
use vstd::prelude::*;

verus! {

/// The least-connections choice: the first healthy position whose connection
/// count is the smallest among the healthy ones.
pub open spec fn is_least_connections_choice(healthy: Seq<bool>, conns: Seq<usize>, i: int) -> bool {
    &&& 0 <= i < healthy.len()
    &&& healthy[i]
    &&& forall|j: int| 0 <= j < healthy.len() && healthy[j] ==> conns[i] <= #[trigger] conns[j]
    &&& forall|j: int| 0 <= j < i && healthy[j] ==> conns[i] < #[trigger] conns[j]
}

/// Sends each request to the healthy server with the fewest active connections.
pub struct LeastConnections;

impl LeastConnections {
    pub fn new() -> (r: Self) {
        LeastConnections
    }
}

/// The least-connections choice for a health snapshot and the servers'
/// connection counts; nothing when no server is healthy.
pub fn least_connections_pick(healthy: &[bool], conns: &[usize]) -> (r: Option<usize>)
    requires
        conns@.len() == healthy@.len(),
    ensures
        r matches Some(i) ==> is_least_connections_choice(healthy@, conns@, i as int),
        r is None <==> forall|j: int| 0 <= j < healthy@.len() ==> !#[trigger] healthy@[j],
{
    let mut best: Option<usize> = None;
    let mut i: usize = 0;
    while i < healthy.len()
        invariant
            conns@.len() == healthy@.len(),
            i <= healthy@.len(),
            best is None <==> forall|j: int| 0 <= j < i ==> !#[trigger] healthy@[j],
            best matches Some(b) ==> {
                &&& b < i
                &&& healthy@[b as int]
                &&& forall|j: int| 0 <= j < i && healthy@[j] ==> conns@[b as int] <= #[trigger] conns@[j]
                &&& forall|j: int| 0 <= j < b && healthy@[j] ==> conns@[b as int] < #[trigger] conns@[j]
            },
        decreases healthy@.len() - i,
    {
        if healthy[i] {
            match best {
                None => {
                    best = Some(i);
                },
                Some(b) => {
                    if conns[i] < conns[b] {
                        best = Some(i);
                    }
                },
            }
        }
        i = i + 1;
    }
    best
}

/// Reads the active-connection count of every server of the pool, in order.
pub fn connections_snapshot(servers: &[Arc<Server>]) -> (r: Vec<usize>)
    ensures
        read_connections(servers@, r@),
{
    let mut r: Vec<usize> = Vec::new();
    let mut i: usize = 0;
    while i < servers.len()
        invariant
            i <= servers@.len(),
            r@.len() == i,
            forall|j: int| 0 <= j < i ==> #[trigger] servers@[j].connections_read(r@[j]),
        decreases servers@.len() - i,
    {
        r.push(servers[i].get_active_connections());
        i = i + 1;
    }
    r
}

impl Strategy for LeastConnections {
    /// A server is chosen only as the least-connections choice for health
    /// flags and connection counts read from the pool; nothing is chosen only
    /// when the flags read mark no server healthy.
    open spec fn picks(&self, servers: Seq<Arc<Server>>, chosen: Option<Arc<Server>>) -> bool {
        match chosen {
            Some(s) => exists|healthy: Seq<bool>, conns: Seq<usize>, i: int|
                {
                    &&& read_health(servers, healthy)
                    &&& read_connections(servers, conns)
                    &&& #[trigger] is_least_connections_choice(healthy, conns, i)
                    &&& s == servers[i]
                },
            None => exists|healthy: Seq<bool>|
                read_health(servers, healthy) && forall|j: int|
                    0 <= j < healthy.len() ==> !#[trigger] healthy[j],
        }
    }

    fn select<'a>(&self, servers: &'a [Arc<Server>]) -> (r: Option<&'a Arc<Server>>) {
        let healthy = health_snapshot(servers);
        let conns = connections_snapshot(servers);
        match least_connections_pick(&healthy, &conns) {
            Some(i) => Some(&servers[i]),
            None => None,
        }
    }
}

/// A server that least connections selects is a server of the pool whose
/// health flag the selection read as true and whose connection count, as
/// read, is no larger than that of any server read as healthy, and smaller
/// than that of every healthy server before it; nothing is selected only when
/// every flag was read as false.
pub proof fn lemma_least_connections_selects_healthy(
    lc: LeastConnections,
    servers: Seq<Arc<Server>>,
    chosen: Option<Arc<Server>>,
)
    requires
        lc.picks(servers, chosen),
    ensures
        chosen matches Some(s) ==> exists|healthy: Seq<bool>, conns: Seq<usize>, i: int|
            #![trigger read_health(servers, healthy), read_connections(servers, conns), servers[i]]
            {
                &&& read_health(servers, healthy)
                &&& read_connections(servers, conns)
                &&& 0 <= i < servers.len()
                &&& servers[i] == s
                &&& servers[i].health_read(healthy[i])
                &&& healthy[i]
                &&& forall|j: int|
                    0 <= j < servers.len() && #[trigger] healthy[j] ==> conns[i] <= conns[j]
                &&& forall|j: int| 0 <= j < i && #[trigger] healthy[j] ==> conns[i] < conns[j]
            },
        chosen is None ==> exists|healthy: Seq<bool>|
            read_health(servers, healthy) && forall|j: int|
                0 <= j < servers.len() ==> !#[trigger] healthy[j],
{
    if let Some(s) = chosen {
        let (healthy, conns, i) = choose|healthy: Seq<bool>, conns: Seq<usize>, i: int|
            {
                &&& read_health(servers, healthy)
                &&& read_connections(servers, conns)
                &&& #[trigger] is_least_connections_choice(healthy, conns, i)
                &&& s == servers[i]
            };
        assert(servers[i].health_read(healthy[i]));
    }
}

} // verus!
