//! Sentinel: alerting and console logic for a validator node: the alert
//! state machine and rule engine, the metrics and RPC readers, notifications,
//! and the console's sessions, login, TOTP guard and gated operations.

pub mod alert;
pub mod config;
pub mod notify;
pub mod parse;
pub mod rpc;
pub mod rules;
pub mod scrape;
pub mod text;
pub mod time;
pub mod web;
