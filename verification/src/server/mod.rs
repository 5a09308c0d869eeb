//! What a server decides: its settings, who may join, what a ping is answered,
//! and how a connection goes from its first packet to its last.
//!
//! Free of I/O: a caller reads and writes sockets and files, and hands over what
//! was read.

pub mod config;
pub mod connection;
pub mod conversation;
pub mod player;
pub mod server;
pub mod status;
pub mod tick;

pub use config::ServerConfig;
pub use player::{offline_uuid, PlayerInfo, PlayerRegistry};
pub use server::{Server, ServerContext};
pub use tick::TickMetrics;
