//! Decisions of a market sniper: configuration, pricing, transactions and
//! validation, stated and proved apart from the network that carries them.
pub mod text;
pub mod u256;
pub mod address;
pub mod json;
pub mod urls;
pub mod fields;
pub mod config;
pub mod price;
pub mod validation;
pub mod scan;
pub mod log_audit;
pub mod abi;
pub mod execution;
pub mod rate_limit;
pub mod latency;
pub mod watch;
pub mod commands;
