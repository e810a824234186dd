//! Network-observability agent core: identity caches, flow construction,
//! enrichment, filtering, connection tracking and the operator streaming
//! protocol, with machine-checked contracts.

pub mod config;
pub mod conntrack;
pub mod dropflow;
pub mod enrich;
pub mod events;
pub mod filter;
pub mod flow;
pub mod identity;
pub mod ipcache;
pub mod kvlist;
pub mod metrics;
pub mod net;
pub mod observer;
pub mod operator;
pub mod peer;
pub mod retry;
pub mod store;
pub mod sync;
pub mod sysinfo;
pub mod text;
pub mod vethwatch;
pub mod watchers;
