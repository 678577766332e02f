//! Construction of twisty-puzzle definitions.
//!
//! A caller describes a puzzle piece by piece: colors, twist axes with their
//! layers, twists, pieces and stickers. The builders in this crate keep that
//! description consistent while it grows and turn it into a read-only model
//! whose IDs are dense and whose twist relations are closed.

pub mod axis_system;
pub mod collections;
pub mod color_system;
pub mod colors;
pub mod ids;
pub mod info;
pub mod layer_mask;
pub mod lua_code;
pub mod naming;
pub mod ndim;
pub mod ordering;
pub mod palette;
pub mod pieces;
pub mod puzzle;
pub mod puzzle_type;
pub mod shape;
pub mod twist_system;
