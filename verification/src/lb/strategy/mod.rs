pub mod counter;
pub mod least_connections;
pub mod round_robin;
pub mod snapshot;
pub mod trait_def;
pub mod weighted_round_robin;

pub use least_connections::LeastConnections;
pub use round_robin::RoundRobin;
pub use trait_def::Strategy;
pub use weighted_round_robin::WeightedRoundRobin;
