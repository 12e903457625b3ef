//! The verified core of a proof-of-work miner for the Ember browser mining API.

pub mod config;
pub mod cuda;
pub mod dashboard;
pub mod mining;
pub mod node;
pub mod numbers;
pub mod session;
pub mod target;
pub mod text;
pub mod work;
