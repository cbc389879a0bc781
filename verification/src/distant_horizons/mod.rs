//! Server side of the Distant Horizons handshake.

pub mod codec;
pub mod handshake;
pub mod messages;
