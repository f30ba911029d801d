//! A verified model of a UDP packet-forwarding proxy: the per-datagram
//! dataplane with its filter chain, the cluster/endpoint model with routing
//! tokens, the session-affinity table, and the discovery (xDS) client state
//! machine with ACK/NACK bookkeeping, reconnect back-off and server fail-over.
//!
//! Sockets, HTTP and gRPC transports live outside this crate; the library
//! states and proves what is decided and computed for each datagram and each
//! control-plane message.

pub mod addr;
pub mod admin;
pub mod backoff;
pub mod cli;
pub mod cluster;
pub mod codec;
pub mod config;
pub mod config_v1;
pub mod dataplane;
pub mod endpoint;
pub mod session;
pub mod filter;
pub mod firewall;
pub mod token_router;
pub mod xds;
pub mod yaml;
