//! A grid raycaster in exact integer arithmetic, in the style of early
//! pseudo-3D games.
//!
//! - `grid`: the tile map and the code read at a grid-line crossing.
//! - `raycast`: one ray walked across the horizontal and vertical grid lines
//!   (grid DDA), with its hit as an exact rational distance.
//! - `fan`: the viewer's pose and a fan of rays across the field of view.
//! - `projector`: a hit turned into the description of one screen column.
//! - `movement`: the pose advanced by one tick of input, blocked per axis by
//!   the clearance to the nearest wall.
//! - `enclosure`: what holds of rays cast inside a walled map.
//!
//! World positions are integers, `CELL` units to a cell side; directions are
//! integer vectors and angles integer ticks, `TURN` to a full turn. Turning
//! an angle into a direction vector is left to the caller.

use vstd::prelude::*;

pub mod grid;
pub mod raycast;
pub mod fan;
pub mod movement;
pub mod projector;
pub mod enclosure;
pub mod approach;

verus! {

} // verus!
