//! A `Vec` that is addressed as a two-dimensional grid of tiles.
//!
//! The tiles are stored row after row in one backing `Vec`; the tile at
//! `(x, y)` sits at index `y * width + x`. The backing `Vec` can only be
//! changed through the methods of `Vec2d`; `to_vec` hands it back.
//!
//! The height is not stored: it is the length of the backing `Vec` divided by
//! the width. A grid always holds at least one tile; asking for a grid of zero
//! width or height is an error, not an empty grid.
//!
//! Positions are read in two ways: `get` and `get_mut` answer `None` for a
//! position off the grid, while `index` and `index_mut` may only be called with
//! a position on it.
use vstd::prelude::*;

pub mod laws;
pub mod vec2d;
pub mod vec2d_error;

pub use vec2d::Vec2d;

verus! {

/// A position on the grid: `(x, y)`, column first.
pub type Pos = (usize, usize);

} // verus!
