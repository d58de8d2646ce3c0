pub mod health;
pub mod http;

pub use health::{apply_probe, health_change, HealthChange};
pub use http::request_target;
