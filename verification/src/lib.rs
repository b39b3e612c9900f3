//! A client for the Qualisys Track Manager (QTM) real time protocol.
//!
//! The crate speaks RT protocol 1.28 and negotiates down to 1.22 when talking
//! to an older QTM. It holds everything a connection decides: the commands
//! and the replies that acknowledge them, the framing and decoding of
//! packets and data frame components, version negotiation, the connection's
//! state, and discovery of servers on the network. Sockets are the caller's.

pub mod commands;
pub mod components;
pub mod cursor;
pub mod discover;
pub mod error;
pub mod packet;
pub mod packets;
pub mod protocol;
pub mod records;
pub mod simple;
pub mod text;

pub use commands::{ComponentOptions, LedColor, LedMode, Parameter, StreamRate};
pub use components::{Component, ComponentType, Point};
pub use cursor::ByteOrder;
pub use error::{Error, Result};
pub use packet::{DataFrame, EventType, Packet, PacketType};
pub use protocol::{
    Builder, Config, Negotiation, Session, DEFAULT_BASE_PORT, DEFAULT_MAX_PACKET_SIZE,
    DEFAULT_VERSION, MIN_SUPPORTED_MINOR,
};
