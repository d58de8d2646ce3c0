pub mod manager;
pub mod server;

pub use manager::LoadBalancer;
pub use server::Server;
