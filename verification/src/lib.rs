//! Angular ordering of points of the plane around a centre.
//!
//! A [`Point`] has rational coordinates, held exactly as two 64-bit
//! numerators over one positive 64-bit weight.  Nothing here rounds: every
//! comparison is decided by the signs of exact integers.
//!
//! - [`find_center`] gives the centroid of a list of points.
//! - [`less`] orders two points in the clockwise sweep around a centre that
//!   starts straight above it, the farther point first on a common ray.
//! - [`sort_by_atan2`] orders two points by polar angle around a centre,
//!   the larger angle first, and leaves points on a common ray level.
//!
//! The two comparators are meant to be handed to a sort together with one
//! centre.  The modules [`quadrant`] and [`polar`] prove that each is a
//! consistent order, [`sorting`] that a sorted sequence stays as it is when
//! sorted again, and [`turn`] that a rotation of the plane carries the one
//! order to the other, up to the place where each starts.

pub mod arith;
pub mod centroid;
pub mod point;
pub mod polar;
pub mod quadrant;
pub mod sorting;
pub mod turn;
pub mod vector;
pub mod wide;

pub use centroid::find_center;
pub use centroid::CenterError;
pub use point::Coords;
pub use point::Point;
pub use polar::sort_by_atan2;
pub use quadrant::less;
