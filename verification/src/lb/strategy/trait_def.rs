use crate::lb::balancer::server::Server;
use std::sync::Arc;
use vstd::prelude::*;

verus! {

/// Total weight of a pool of servers.
pub open spec fn pool_weight(servers: Seq<Arc<Server>>) -> nat
    decreases servers.len(),
{
    if servers.len() == 0 {
        0
    } else {
        pool_weight(servers.drop_last()) + servers.last()@.weight
    }
}

/// The server a selection refers to, as a value.
pub open spec fn chosen<'a>(r: Option<&'a Arc<Server>>) -> Option<Arc<Server>> {
    match r {
        Some(s) => Some(*s),
        None => None,
    }
}

/// How a server is picked from a pool.
///
/// Which server comes back depends on the health flags and connection counts
/// that the call reads, and on a counter shared between tasks, all of which
/// other tasks change. So the contract states the result as a function of the
/// values read (`picks`, which each strategy defines through its exact
/// choice), and what holds whatever was read: the result belongs to the pool,
/// and an empty pool yields nothing.
pub trait Strategy: Send + Sync {
    /// `chosen` is a result this strategy gives on `servers`, for some values
    /// that its reads of the pool (and of its own counter) can return.
    spec fn picks(&self, servers: Seq<Arc<Server>>, chosen: Option<Arc<Server>>) -> bool;

    fn select<'a>(&self, servers: &'a [Arc<Server>]) -> (r: Option<&'a Arc<Server>>)
        requires
            pool_weight(servers@) <= usize::MAX,
        ensures
            r matches Some(s) ==> servers@.contains(*s),
            servers@.len() == 0 ==> r is None,
            self.picks(servers@, chosen(r)),
    ;
}

} // verus!
