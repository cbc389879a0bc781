//! Loot: what tables drop, and how it is laid into a container.

pub mod chest;
pub mod condition;
pub mod generate;
pub mod table;
