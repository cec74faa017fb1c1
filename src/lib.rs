//! Policy logic of a daemon that drives a BitTorrent engine over its RPC interface.
pub mod text;
pub mod schedule;
pub mod device;
pub mod rpc;
pub mod consumer;
pub mod controller;
pub mod email;
pub mod logging;
pub mod config;
pub mod process;
