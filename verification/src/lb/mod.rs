pub mod balancer;
pub mod net;
pub mod strategy;

pub use self::balancer::{LoadBalancer, Server};
pub use self::strategy::{LeastConnections, RoundRobin, Strategy, WeightedRoundRobin};
