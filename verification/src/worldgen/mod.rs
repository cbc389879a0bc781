//! Structures of the world: where they stand and what they are made of.

pub mod chunk;
pub mod finder;
pub mod geometry;
pub mod jigsaw;
pub mod mansion;
pub mod mineshaft;
pub mod mineshaft_blocks;
pub mod piece;
pub mod placement;
pub mod processor;
pub mod template;
