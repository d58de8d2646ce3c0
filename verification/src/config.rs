use crate::lb::balancer::server::Server;
use crate::text::str_equal;
use std::sync::Arc;
use vstd::prelude::*;

verus! {

/// The whole configuration: listeners and the backend pool they share.
#[derive(Debug)]
pub struct Config {
    /// How often backends are probed, as written in the file (e.g. "5s").
    pub health_check_interval: String,
    pub listeners: Vec<ListenerConfig>,
    pub servers: Vec<ServerConfig>,
}

/// One listening endpoint (HTTP or TCP).
#[derive(Debug)]
pub struct ListenerConfig {
    pub listen_addr: String,
    pub mode: String,
    pub algorithm: String,
    /// Optional path-based routing rules.
    pub acls: Option<Vec<AclConfig>>,
}

/// A path-based routing rule: requests whose path ends with `pattern` go to
/// the servers whose host is one of `target_hosts`.
#[derive(Debug)]
pub struct AclConfig {
    pub name: String,
    pub pattern: String,
    pub target_hosts: Vec<String>,
}

/// One backend server.
#[derive(Debug)]
pub struct ServerConfig {
    pub host: String,
    pub max_connections: usize,
    /// Share of traffic under weighted selection; 1 when absent.
    pub weight: Option<usize>,
}

/// The selection algorithms a listener can name.
#[derive(Debug, Clone, Copy, PartialEq, Eq, Structural)]
pub enum Algorithm {
    RoundRobin,
    LeastConnections,
    WeightedRoundRobin,
}

/// The protocols a listener can speak.
#[derive(Debug, Clone, Copy, PartialEq, Eq, Structural)]
pub enum ListenerMode {
    Http,
    Tcp,
}

/// The weight a server configuration stands for: its own, or 1.
pub open spec fn weight_or_default(weight: Option<usize>) -> usize {
    match weight {
        Some(w) => w,
        None => 1,
    }
}

impl ServerConfig {
    /// The configured weight, 1 when none is given.
    pub fn effective_weight(&self) -> (r: usize)
        ensures
            r == weight_or_default(self.weight),
    {
        match self.weight {
            Some(w) => w,
            None => 1,
        }
    }
}

impl Config {
    /// The backend pool described by the configuration, in file order; each
    /// server starts healthy and idle.
    pub fn server_pool(&self) -> (r: Vec<Arc<Server>>)
        ensures
            r@.len() == self.servers@.len(),
            forall|i: int|
                0 <= i < r@.len() ==> {
                    &&& (#[trigger] r@[i])@.host == self.servers@[i].host@
                    &&& r@[i]@.max_connections == self.servers@[i].max_connections
                    &&& r@[i]@.weight == weight_or_default(self.servers@[i].weight)
                },
    {
        let mut r: Vec<Arc<Server>> = Vec::new();
        let mut i: usize = 0;
        while i < self.servers.len()
            invariant
                i <= self.servers@.len(),
                r@.len() == i,
                forall|j: int|
                    0 <= j < r@.len() ==> {
                        &&& (#[trigger] r@[j])@.host == self.servers@[j].host@
                        &&& r@[j]@.max_connections == self.servers@[j].max_connections
                        &&& r@[j]@.weight == weight_or_default(self.servers@[j].weight)
                    },
            decreases self.servers@.len() - i,
        {
            let s = &self.servers[i];
            let server = Server::new(s.host.clone(), s.max_connections, s.effective_weight());
            r.push(Arc::new(server));
            i = i + 1;
        }
        r
    }
}

impl Algorithm {
    /// The algorithm a configuration name stands for, if any.
    pub fn from_name(name: &str) -> (r: Option<Algorithm>)
        ensures
            r == Algorithm::spec_named(name@),
    {
        if str_equal(name, "round_robin") {
            Some(Algorithm::RoundRobin)
        } else if str_equal(name, "least_connections") {
            Some(Algorithm::LeastConnections)
        } else if str_equal(name, "weighted_round_robin") {
            Some(Algorithm::WeightedRoundRobin)
        } else {
            None
        }
    }

    /// The algorithm a listener runs: the one it names, or round robin when
    /// the name is unknown.
    pub fn for_listener(name: &str) -> (r: Algorithm)
        ensures
            r == match Algorithm::spec_named(name@) {
                Some(a) => a,
                None => Algorithm::RoundRobin,
            },
    {
        match Algorithm::from_name(name) {
            Some(a) => a,
            None => Algorithm::RoundRobin,
        }
    }

    /// The algorithm named by a configuration string.
    pub open spec fn spec_named(name: Seq<char>) -> Option<Algorithm> {
        if name == "round_robin"@ {
            Some(Algorithm::RoundRobin)
        } else if name == "least_connections"@ {
            Some(Algorithm::LeastConnections)
        } else if name == "weighted_round_robin"@ {
            Some(Algorithm::WeightedRoundRobin)
        } else {
            None
        }
    }
}

impl ListenerMode {
    /// The protocol a configuration name stands for, if any.
    pub fn from_name(name: &str) -> (r: Option<ListenerMode>)
        ensures
            r == if name@ == "http"@ {
                Some(ListenerMode::Http)
            } else if name@ == "tcp"@ {
                Some(ListenerMode::Tcp)
            } else {
                None
            },
    {
        if str_equal(name, "http") {
            Some(ListenerMode::Http)
        } else if str_equal(name, "tcp") {
            Some(ListenerMode::Tcp)
        } else {
            None
        }
    }
}

} // verus!
