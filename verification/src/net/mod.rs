//! Decisions of the connection handlers.

pub mod emote;
pub mod endpoint;
pub mod login;
pub mod resource_pack;
pub mod skin_update;
pub mod version;
