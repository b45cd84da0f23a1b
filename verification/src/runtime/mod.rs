pub mod services;
pub mod transport;
pub mod config;
pub mod lifecycle;
pub mod reaper;
