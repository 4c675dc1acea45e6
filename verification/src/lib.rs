//! A verified codec and patch engine for a structured binary game-archive
//! format: typed room-level containers with lazily re-typed sections, a
//! resource-addressed patch dispatcher, and the edge-to-triangle collision
//! geometry reconstruction that consumes one of the typed section kinds.

pub mod bytes;
pub mod cmdl;
pub mod collision;
pub mod collision_patch;
pub mod errors;
pub mod flags;
pub mod geometry;
pub mod model_creation;
pub mod mrea;
pub mod patcher;
pub mod scly;
pub mod scly_props;
pub mod txtr;
