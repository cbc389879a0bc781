//! Pieces of structures.

use super::geometry::BlockBox;
use vstd::prelude::*;

verus! {

/// What a piece of a structure is.
#[derive(Clone, Copy, Debug, PartialEq, Eq, Structural)]
pub enum StructurePieceType {
    MineshaftRoom,
    MineshaftCorridor,
    MineshaftCrossing,
    MineshaftStairs,
    WoodlandMansion,
    Jigsaw,
}

/// A piece of a structure: what it is, where it stands, and how far it is from the piece
/// that the structure starts with.
#[derive(Clone, Copy, Debug, PartialEq, Eq, Structural)]
pub struct StructurePiece {
    pub piece_type: StructurePieceType,
    pub bounding_box: BlockBox,
    pub chain_length: u32,
}

} // verus!
