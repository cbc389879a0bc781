//! A bounded bridge between the server and its management window.

pub mod console;
pub mod controls;
pub mod history;
pub mod order;
pub mod player_actions;
pub mod players;
pub mod process;
pub mod state;
pub mod text;
pub mod types;
