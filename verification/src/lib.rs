//! A connection manager: many logical channels multiplexed over one duplex
//! message transport.
//!
//! The crate holds the transport-independent core: the wire format of an
//! envelope, the bounded queue of a consumer, the routing table, and the
//! state machine of the reader. A host program owns the socket, feeds each
//! inbound event to [`manager::Manager::listen`] and writes what
//! [`manager::Manager::send`] hands back.

pub mod codec;
pub mod manager;
pub mod message;
pub mod queue;
pub mod table;
pub mod text;
