//! The command-line proxy: a local SOCKS5 server in front of the fastest
//! public SOCKS5 proxy, with rotation on demand or on a timer.
pub mod proxy_type;
pub mod proxy_cache;
pub mod sources;
pub mod rotation;
