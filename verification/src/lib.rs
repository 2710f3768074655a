//! Geometry for merging georeferenced raster grids: ordering of world
//! coordinates, rounding of pixel positions, the bounding envelope of a grid,
//! the common rectangle of several grids, and the checks that grids share a
//! projection and a pixel lattice.
//!
//! A coordinate is held as the bit pattern of an IEEE 754 binary64 number.
//! Everything here works on those bit patterns with integer arithmetic only:
//! comparing, rounding, and telling whether a transform can be inverted are
//! exact. Sums, products and quotients of coordinates are left to the
//! caller, who hands their results in as bit patterns.

pub mod error;
pub mod input;
pub mod swath;
pub mod transform;
pub mod types;
pub mod validation;
pub mod value;
