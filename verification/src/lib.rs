//! A flat voxel chunk and its pick-delete protocol.
//!
//! The library models a rectangular chunk of unit blocks standing at integer
//! grid coordinates, a registry that keeps at most one live block per
//! coordinate, the rule that maps a world-space ray intersection point to the
//! single block it targets for removal, and the two-state cursor-lock
//! controller. Windowing, rendering and ray casting belong to a host engine;
//! the library takes their results (an input snapshot, an intersection point)
//! as plain values.

pub mod chunk;
pub mod coords;
pub mod cursor;
pub mod frame;
pub mod input;
pub mod pick;
pub mod registry;
