//! A boundary-representation modeling kernel over exact integer coordinates.
//!
//! Shape trees built from planar profiles (sketches, circles), rigid or affine
//! transforms, linear sweeps and boolean nodes are evaluated, at a
//! caller-supplied tolerance, into bounding volumes, triangulated faces,
//! edges and vertices. Coordinates are integers in a caller-chosen unit, so
//! every evaluation result is exact and every contract below is proved.

pub mod math;
pub mod curves;
pub mod topology;
pub mod shapes;
pub mod laws;
pub mod syntax;

use vstd::prelude::*;

verus! {

/// The kernel's error taxonomy.
#[derive(Clone, Copy, Debug, PartialEq, Eq, Structural)]
pub enum Error {
    /// The tolerance handed to an evaluation entry point is not positive.
    InvalidTolerance,
    /// The requested evaluation is a capability the kernel does not have
    /// (boolean face clipping, edge derivation for booleans).
    UnsupportedOperation,
    /// The input reduces a shape to zero measure: too few sketch points,
    /// a zero radius, a zero-determinant transform, a zero sweep length.
    DegenerateGeometry,
    /// A computed coordinate or a matrix entry leaves the kernel's
    /// fixed-point range; a machine limit, not a modeling fault.
    NumericOverflow,
}

} // verus!
