use crate::config::AclConfig;
use crate::lb::balancer::server::Server;
use crate::lb::strategy::trait_def::{pool_weight, Strategy};
use crate::text::{ends_with, is_suffix, lemma_is_suffix_concat, str_equal};
use std::sync::Arc;
use vstd::prelude::*;

verus! {

/// `host` is one of the hosts a routing rule targets.
pub open spec fn host_listed(targets: Seq<String>, host: Seq<char>) -> bool {
    exists|i: int| 0 <= i < targets.len() && #[trigger] targets[i]@ == host
}

/// The servers of `servers` whose host is listed in `targets`, in pool order.
pub open spec fn servers_on_hosts(servers: Seq<Arc<Server>>, targets: Seq<String>) -> Seq<
    Arc<Server>,
>
    decreases servers.len(),
{
    if servers.len() == 0 {
        seq![]
    } else {
        let rest = servers_on_hosts(servers.drop_last(), targets);
        if host_listed(targets, servers.last()@.host) {
            rest.push(servers.last())
        } else {
            rest
        }
    }
}

/// The pool that serves `path`, trying the rules from the `k`-th on: the
/// servers of the first rule whose pattern ends the path and that names at
/// least one server of the pool; the whole pool when no rule does.
pub open spec fn routed_pool_from(
    servers: Seq<Arc<Server>>,
    acls: Seq<AclConfig>,
    path: Seq<char>,
    k: int,
) -> Seq<Arc<Server>>
    decreases acls.len() - k,
{
    if k < 0 || k >= acls.len() {
        servers
    } else {
        let pool = servers_on_hosts(servers, acls[k].target_hosts@);
        if is_suffix(acls[k].pattern@, path) && pool.len() > 0 {
            pool
        } else {
            routed_pool_from(servers, acls, path, k + 1)
        }
    }
}

/// The pool that serves `path`.
pub open spec fn routed_pool(servers: Seq<Arc<Server>>, acls: Seq<AclConfig>, path: Seq<char>) -> Seq<
    Arc<Server>,
> {
    routed_pool_from(servers, acls, path, 0)
}

/// A rule's pool is drawn from the whole pool and weighs no more than it.
pub proof fn lemma_servers_on_hosts(servers: Seq<Arc<Server>>, targets: Seq<String>)
    ensures
        pool_weight(servers_on_hosts(servers, targets)) <= pool_weight(servers),
        servers_on_hosts(servers, targets).len() <= servers.len(),
        forall|x: Arc<Server>| #[trigger]
            servers_on_hosts(servers, targets).contains(x) ==> servers.contains(x)
                && host_listed(targets, x@.host),
    decreases servers.len(),
{
    if servers.len() > 0 {
        let init = servers.drop_last();
        lemma_servers_on_hosts(init, targets);
        let rest = servers_on_hosts(init, targets);
        let last = servers.last();
        assert forall|x: Arc<Server>| #[trigger]
            servers_on_hosts(servers, targets).contains(x) implies servers.contains(x)
            && host_listed(targets, x@.host) by {
            if rest.contains(x) {
                let i = choose|i: int| 0 <= i < init.len() && init[i] == x;
                assert(servers[i] == x);
            } else {
                assert(servers[servers.len() - 1] == x);
            }
        }
        if host_listed(targets, last@.host) {
            assert(rest.push(last).drop_last() =~= rest);
        }
    }
}

/// Whatever rule serves a path, its pool is drawn from the whole pool and
/// weighs no more than it.
pub proof fn lemma_routed_pool_within(
    servers: Seq<Arc<Server>>,
    acls: Seq<AclConfig>,
    path: Seq<char>,
    k: int,
)
    ensures
        pool_weight(routed_pool_from(servers, acls, path, k)) <= pool_weight(servers),
        forall|x: Arc<Server>| #[trigger]
            routed_pool_from(servers, acls, path, k).contains(x) ==> servers.contains(x),
    decreases acls.len() - k,
{
    if 0 <= k < acls.len() {
        lemma_servers_on_hosts(servers, acls[k].target_hosts@);
        lemma_routed_pool_within(servers, acls, path, k + 1);
    }
}

/// Whether `host` is one of `targets`.
fn host_is_listed(targets: &Vec<String>, host: &str) -> (r: bool)
    ensures
        r == host_listed(targets@, host@),
{
    let mut i: usize = 0;
    while i < targets.len()
        invariant
            i <= targets@.len(),
            forall|j: int| 0 <= j < i ==> #[trigger] targets@[j]@ != host@,
        decreases targets@.len() - i,
    {
        if str_equal(targets[i].as_str(), host) {
            return true;
        }
        i = i + 1;
    }
    false
}

/// The servers of the pool whose host is one of `targets`, in pool order.
pub fn select_servers_on_hosts(servers: &[Arc<Server>], targets: &Vec<String>) -> (r: Vec<
    Arc<Server>,
>)
    ensures
        r@ == servers_on_hosts(servers@, targets@),
{
    let mut r: Vec<Arc<Server>> = Vec::new();
    let mut i: usize = 0;
    while i < servers.len()
        invariant
            i <= servers@.len(),
            r@ == servers_on_hosts(servers@.take(i as int), targets@),
        decreases servers@.len() - i,
    {
        proof {
            assert(servers@.take(i + 1).drop_last() =~= servers@.take(i as int));
        }
        if host_is_listed(targets, servers[i].host_str()) {
            r.push(servers[i].clone());
        }
        i = i + 1;
    }
    proof {
        assert(servers@.take(servers@.len() as int) =~= servers@);
    }
    r
}

/// Manages the server pool of one listener and picks a server for each request.
pub struct LoadBalancer {
    servers: Vec<Arc<Server>>,
    strategy: Box<dyn Strategy>,
    acls: Vec<AclConfig>,
}

impl LoadBalancer {
    /// The server pool.
    pub closed spec fn pool(&self) -> Seq<Arc<Server>> {
        self.servers@
    }

    /// The path-based routing rules, in the order they are tried.
    pub closed spec fn rules(&self) -> Seq<AclConfig> {
        self.acls@
    }

    /// `chosen` is a result that this load balancer's strategy gives on `pool`.
    pub closed spec fn strategy_picks(&self, pool: Seq<Arc<Server>>, chosen: Option<Arc<Server>>) -> bool {
        self.strategy.picks(pool, chosen)
    }

    #[verifier::type_invariant]
    spec fn weights_fit(&self) -> bool {
        pool_weight(self.servers@) <= usize::MAX
    }

    /// A load balancer over `servers` that picks with `strategy`, after the
    /// routing rules `acls`.
    pub fn new(servers: Vec<Arc<Server>>, strategy: Box<dyn Strategy>, acls: Vec<AclConfig>) -> (r:
        Self)
        requires
            pool_weight(servers@) <= usize::MAX,
        ensures
            r.pool() == servers@,
            r.rules() == acls@,
    {
        LoadBalancer { servers, strategy, acls }
    }

    /// The whole server pool.
    pub fn get_servers(&self) -> (r: &[Arc<Server>])
        ensures
            r@ == self.pool(),
    {
        self.servers.as_slice()
    }

    /// The pool that serves `path`: the servers of the first rule whose
    /// pattern ends the path and that names at least one server of the pool,
    /// or the whole pool when no rule does.
    pub fn routing_pool(&self, path: &str) -> (r: Vec<Arc<Server>>)
        ensures
            r@ == routed_pool(self.pool(), self.rules(), path@),
    {
        let mut k: usize = 0;
        while k < self.acls.len()
            invariant
                k <= self.acls@.len(),
                routed_pool(self.servers@, self.acls@, path@) == routed_pool_from(
                    self.servers@,
                    self.acls@,
                    path@,
                    k as int,
                ),
            decreases self.acls@.len() - k,
        {
            let acl = &self.acls[k];
            if ends_with(path, acl.pattern.as_str()) {
                let pool = select_servers_on_hosts(self.servers.as_slice(), &acl.target_hosts);
                if pool.len() > 0 {
                    return pool;
                }
            }
            k = k + 1;
        }
        let mut all: Vec<Arc<Server>> = Vec::new();
        let mut i: usize = 0;
        while i < self.servers.len()
            invariant
                i <= self.servers@.len(),
                all@ == self.servers@.take(i as int),
            decreases self.servers@.len() - i,
        {
            all.push(self.servers[i].clone());
            i = i + 1;
        }
        proof {
            assert(self.servers@.take(self.servers@.len() as int) =~= self.servers@);
        }
        all
    }

    /// Picks a server for a request on `path`: the strategy chooses within
    /// the pool that serves the path.
    pub fn select_server_with_path(&self, path: &str) -> (r: Option<Arc<Server>>)
        ensures
            r matches Some(s) ==> routed_pool(self.pool(), self.rules(), path@).contains(s),
            r matches Some(s) ==> self.pool().contains(s),
            self.pool().len() == 0 ==> r is None,
            self.strategy_picks(routed_pool(self.pool(), self.rules(), path@), r),
    {
        proof {
            use_type_invariant(self);
            lemma_routed_pool_within(self.servers@, self.acls@, path@, 0);
        }
        let pool = self.routing_pool(path);
        proof {
            if self.servers@.len() == 0 {
                lemma_routed_pool_empty(self.servers@, self.acls@, path@, 0);
            }
        }
        match self.strategy.select(pool.as_slice()) {
            Some(s) => Some(s.clone()),
            None => None,
        }
    }

    /// Picks a server of the whole pool, ignoring the routing rules.
    pub fn select_server(&self) -> (r: Option<Arc<Server>>)
        ensures
            r matches Some(s) ==> self.pool().contains(s),
            self.pool().len() == 0 ==> r is None,
            self.strategy_picks(self.pool(), r),
    {
        proof {
            use_type_invariant(self);
        }
        match self.strategy.select(self.servers.as_slice()) {
            Some(s) => Some(s.clone()),
            None => None,
        }
    }
}

/// An empty pool routes every path to an empty pool.
pub proof fn lemma_routed_pool_empty(
    servers: Seq<Arc<Server>>,
    acls: Seq<AclConfig>,
    path: Seq<char>,
    k: int,
)
    requires
        servers.len() == 0,
    ensures
        routed_pool_from(servers, acls, path, k).len() == 0,
    decreases acls.len() - k,
{
    if 0 <= k < acls.len() {
        lemma_routed_pool_empty(servers, acls, path, k + 1);
    }
}

/// A path that no rule's pattern ends (no text followed by the pattern
/// equals the path) is served by the whole pool.
pub proof fn lemma_unmatched_path_uses_whole_pool(
    servers: Seq<Arc<Server>>,
    acls: Seq<AclConfig>,
    path: Seq<char>,
    k: int,
)
    requires
        forall|j: int, t: Seq<char>| 0 <= j < acls.len() ==> #[trigger] (t + acls[j].pattern@) != path,
    ensures
        routed_pool_from(servers, acls, path, k) == servers,
    decreases acls.len() - k,
{
    if 0 <= k < acls.len() {
        lemma_is_suffix_concat(acls[k].pattern@, path);
        lemma_unmatched_path_uses_whole_pool(servers, acls, path, k + 1);
    }
}

/// The pool serving a path is either the whole pool, or the servers listed
/// by a rule whose pattern ends the path (the path is some text followed by
/// the pattern), that lists at least one server of the pool, and such that no
/// earlier rule both ends the path and lists a server of the pool.
pub proof fn lemma_routed_pool_cases(
    servers: Seq<Arc<Server>>,
    acls: Seq<AclConfig>,
    path: Seq<char>,
    k: int,
)
    requires
        0 <= k,
    ensures
        routed_pool_from(servers, acls, path, k) == servers || exists|j: int|
            k <= j < acls.len() && {
                &&& exists|t: Seq<char>| #[trigger] (t + acls[j].pattern@) == path
                &&& routed_pool_from(servers, acls, path, k) == #[trigger] servers_on_hosts(
                    servers,
                    acls[j].target_hosts@,
                )
                &&& servers_on_hosts(servers, acls[j].target_hosts@).len() > 0
                &&& forall|i: int|
                    k <= i < j ==> !(is_suffix(acls[i].pattern@, path) && #[trigger] servers_on_hosts(
                        servers,
                        acls[i].target_hosts@,
                    ).len() > 0)
            },
    decreases acls.len() - k,
{
    if k < acls.len() {
        lemma_is_suffix_concat(acls[k].pattern@, path);
        lemma_routed_pool_cases(servers, acls, path, k + 1);
        let pool = servers_on_hosts(servers, acls[k].target_hosts@);
        if is_suffix(acls[k].pattern@, path) && pool.len() > 0 {
            assert(routed_pool_from(servers, acls, path, k) == pool);
        } else if routed_pool_from(servers, acls, path, k + 1) != servers {
            let j = choose|j: int|
                k + 1 <= j < acls.len() && {
                    &&& exists|t: Seq<char>| #[trigger] (t + acls[j].pattern@) == path
                    &&& routed_pool_from(servers, acls, path, k + 1) == #[trigger] servers_on_hosts(
                        servers,
                        acls[j].target_hosts@,
                    )
                    &&& servers_on_hosts(servers, acls[j].target_hosts@).len() > 0
                    &&& forall|i: int|
                        k + 1 <= i < j ==> !(is_suffix(acls[i].pattern@, path)
                            && #[trigger] servers_on_hosts(servers, acls[i].target_hosts@).len()
                            > 0)
                };
            assert(routed_pool_from(servers, acls, path, k) == servers_on_hosts(
                servers,
                acls[j].target_hosts@,
            ));
        }
    }
}

} // verus!
