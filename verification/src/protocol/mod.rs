//! Packets of the two editions.

pub mod inventory_transaction;
pub mod open_connection;
pub mod player_skin;
pub mod remove_resource_pack;
pub mod resource_pack_response;
pub mod serial;
pub mod uuid;
