use std::sync::atomic::{AtomicBool, AtomicUsize, Ordering};
use vstd::prelude::*;

verus! {

/// The fixed description of a backend: where it is, how many concurrent
/// connections it accepts and its share of traffic under weighted selection.
pub struct ServerView {
    pub host: Seq<char>,
    pub max_connections: nat,
    pub weight: nat,
}

/// One backend server of the pool.
///
/// Its health flag and its count of active connections are shared between the
/// health checker and the listeners, so they live in atomics: what a read of
/// them returns depends on what other tasks did, and no contract below claims
/// a particular value for such a read.
pub struct Server {
    pub host: String,
    pub max_connections: usize,
    pub weight: usize,
    healthy: AtomicBool,
    active_connections: AtomicUsize,
}

impl View for Server {
    type V = ServerView;

    closed spec fn view(&self) -> ServerView {
        ServerView {
            host: self.host@,
            max_connections: self.max_connections as nat,
            weight: self.weight as nat,
        }
    }
}

impl Server {
    /// `healthy` is a value that a read of this server's health flag returns.
    /// Any value can be, since other tasks store both; outside this module a
    /// caller learns it of a value only by reading the flag with `is_healthy`.
    pub closed spec fn health_read(&self, healthy: bool) -> bool {
        true
    }

    /// `count` is a value that a read of this server's connection counter
    /// returns. Any value can be, since other tasks change the counter;
    /// outside this module a caller learns it of a value only by reading the
    /// counter with `get_active_connections`.
    pub closed spec fn connections_read(&self, count: usize) -> bool {
        true
    }

    /// A server that starts healthy with no active connection.
    pub fn new(host: String, max_connections: usize, weight: usize) -> (s: Self)
        ensures
            s@.host == host@,
            s@.max_connections == max_connections,
            s@.weight == weight,
    {
        Server {
            host,
            max_connections,
            weight,
            healthy: AtomicBool::new(true),
            active_connections: AtomicUsize::new(0),
        }
    }

    /// The host this server listens on.
    pub fn host_str(&self) -> (r: &str)
        ensures
            r@ == self@.host,
    {
        self.host.as_str()
    }

    /// The share of traffic of this server under weighted selection.
    pub fn get_weight(&self) -> (r: usize)
        ensures
            r == self@.weight,
    {
        self.weight
    }

    /// Current health flag, as last stored by the health checker.
    pub fn is_healthy(&self) -> (r: bool)
        ensures
            self.health_read(r),
    {
        self.healthy.load(Ordering::Relaxed)
    }

    /// Stores a new health flag.
    pub fn set_healthy(&self, healthy: bool) {
        self.healthy.store(healthy, Ordering::Relaxed);
    }

    /// Current number of connections routed to this server and not yet closed.
    pub fn get_active_connections(&self) -> (r: usize)
        ensures
            self.connections_read(r),
    {
        self.active_connections.load(Ordering::Relaxed)
    }

    /// Records one more open connection (wrapping, as an atomic add does).
    pub fn increment_connections(&self) {
        self.active_connections.fetch_add(1, Ordering::Relaxed);
    }

    /// Records one closed connection (wrapping, as an atomic subtract does).
    pub fn decrement_connections(&self) {
        self.active_connections.fetch_sub(1, Ordering::Relaxed);
    }
}

/// The numbers of a server's view are those of its fields, so they fit in a
/// `usize`.
pub proof fn lemma_server_view_fits(s: std::sync::Arc<Server>)
    ensures
        s@.weight <= usize::MAX,
        s@.max_connections <= usize::MAX,
{
}

} // verus!
