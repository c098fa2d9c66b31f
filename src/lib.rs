//! Routing of live data points through registered pipelines, and fan-out of
//! computed results to connected live consumers.

pub mod config;
pub mod double;
pub mod engine;
pub mod hub;
pub mod ids;
pub mod keys;
pub mod manager;
pub mod outputs;
pub mod registry;
pub mod rejection;
pub mod rtbot_run;
pub mod rtbot_xrun;
pub mod services;
pub mod validator;
pub mod wire;
