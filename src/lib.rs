//! Routing of tunnel connections on a shared port: each connection's opening
//! handshake is authenticated against every configured credential, and the
//! first credential whose derived key opens it names the backend.

pub mod config;
pub mod crypto;
pub mod infra;
pub mod infra_linear_scan;
pub mod infra_lru_scan;
