//! Tunnels through HTTP CONNECT and SOCKS5 proxies.

pub mod connection;
pub mod encoding;
pub mod endpoint;
pub mod http;
pub mod manager;
pub mod probe;
pub mod reading;
pub mod retry;
pub mod socks5;
pub mod text;
pub mod wire;
