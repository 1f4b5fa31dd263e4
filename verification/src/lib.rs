//! Transport-layer logic for a fully connected mesh of cooperating parties:
//! the peer directory, the order in which the mesh is established, the role
//! split of the pairwise exchanges, the framing of distributed payloads, and
//! the traffic counters.
//!
//! The library decides; the surrounding program performs the socket work and
//! reports back what it read.

pub mod connections;
pub mod directory;
pub mod exchange;
pub mod mesh;
pub mod registry;
pub mod stats;

pub use connections::{Connections, NetError, Peer};
pub use directory::{ConfigFault, Endpoint, HostAddr};
pub use exchange::ExchangeOrder;
pub use mesh::{ConnectFailure, MeshStep, RetryDecision};
pub use registry::{
    am_king, broadcast, init_from_path, recv_from_king, send_to_king, stats, uninit,
};
pub use stats::Stats;
