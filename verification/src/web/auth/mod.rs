//! Authentication: passwords, sessions, and the second factor.

pub mod password;
pub mod session;
pub mod totp;
