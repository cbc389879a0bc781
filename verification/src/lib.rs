//! Verified core of a Minecraft server: wire codecs, the management console's
//! state machines, skin packs, loot and structure generation.
//!
//! Every function states what it returns in its contract. What needs a socket, a
//! window, a clock or a file system lives in the application around this library.

pub mod bytes;
pub mod cli;
pub mod distant_horizons;
pub mod gui;
pub mod ids;
pub mod launch;
pub mod loot;
pub mod net;
pub mod protocol;
pub mod random;
pub mod registry;
pub mod skin_pack;
pub mod text;
pub mod worldgen;
