//! The decision core of a virtual-network relay server: start-up configuration, the client
//! packet path, the byte rate limiter and the listening sockets' setup.

pub mod client;
pub mod config;
pub mod ipv4;
pub mod listen;
pub mod log_setup;
pub mod net_packet;
pub mod rate_limiter;
pub mod subnet;
pub mod text;
pub mod tokens;
pub mod traffic;
pub mod wg_key;
