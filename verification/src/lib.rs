//! A peer-to-peer chat core: a shared, content-addressed, append-only message
//! log, a registry of peer identities, best-effort live fanout to known peers,
//! and the client that joins history and the live stream.

pub mod bootstrap;
pub mod capability;
pub mod client;
pub mod dht;
pub mod error;
pub mod fanout;
pub mod identity;
pub mod laws;
pub mod log;
pub mod message;
pub mod network;
pub mod receiver;
pub mod registry;

pub use crate::error::ChatError;
pub use crate::fanout::signal_peers;
pub use crate::identity::PeerIdentity;
pub use crate::log::{create_message, fetch_messages};
pub use crate::message::{Agent, FetchMessagesResponse, Message};
pub use crate::network::Network;
pub use crate::receiver::receive_signal;
pub use crate::registry::{get_peers, register_self};
