//! The console's logic: sessions, credentials, the guards on privileged
//! operations, and the reading of probe output.

pub mod auth;
pub mod handlers;
pub mod middleware;
pub mod config;
pub mod ops;
pub mod probe;
pub mod state;
pub mod store;
pub mod version;
