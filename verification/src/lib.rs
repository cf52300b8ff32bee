//! Reliability layer over Steam networking sockets: sequence ids, piggybacked
//! acknowledgements, ping tracking and the per-connection protocol state.

pub mod ack_set;
pub mod common;
pub mod connect_info;
pub mod error;
pub mod listener;
pub mod ping_tracker;
pub mod raw_msg;
pub mod socket;

pub use common::SeqId;
pub use error::Error;
pub use socket::{SendOptions, Socket, SocketConfig, SocketEvent, SocketStatus};
pub use listener::ListenerConfig;
pub use connect_info::ConnectInfo;
