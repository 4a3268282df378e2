//! Fluent construction of shape-tree nodes.
//!
//! These traits are thin wrappers: each call produces exactly the node the
//! kernel evaluates, and its contract says so. Operands are consumed; a
//! shape tree owns its children outright.

use vstd::prelude::*;

use crate::Error;
use crate::math::{Affine, Point, TRANS_MAX, translation_spec};
use crate::shapes::{Shape2d, Shape3d};

verus! {

/// Turns a list of planar points into a sketch profile.
pub trait Sketch {
    /// The planar points the builder starts from.
    spec fn sketch_points(&self) -> Seq<(i64, i64)>;

    /// Builds the profile, with the contract of
    /// [`crate::shapes::Sketch::from_points`].
    fn sketch(&self) -> (r: Result<crate::shapes::Sketch, Error>)
        ensures
            match r {
                Ok(s) => {
                    &&& s.wf()
                    &&& s@.len() == self.sketch_points().len()
                    &&& forall|i: int| 0 <= i < self.sketch_points().len()
                        ==> #[trigger] s@[i] == (Point {
                            x: self.sketch_points()[i].0,
                            y: self.sketch_points()[i].1,
                            z: 0,
                        })
                },
                Err(e) => {
                    &&& (e == Error::DegenerateGeometry <==> self.sketch_points().len() < 3)
                    &&& e == Error::DegenerateGeometry || e == Error::NumericOverflow
                    &&& e == Error::NumericOverflow ==> !(forall|i: int|
                        0 <= i < self.sketch_points().len()
                            ==> -TRANS_MAX <= (#[trigger] self.sketch_points()[i]).0 <= TRANS_MAX
                                && -TRANS_MAX <= self.sketch_points()[i].1 <= TRANS_MAX)
                },
            };
}

impl Sketch for Vec<(i64, i64)> {
    open spec fn sketch_points(&self) -> Seq<(i64, i64)> {
        self@
    }

    fn sketch(&self) -> (r: Result<crate::shapes::Sketch, Error>) {
        crate::shapes::Sketch::from_points(self)
    }
}

/// Extrudes a planar profile along the positive `z` axis.
pub trait Sweep {
    /// The profile the builder starts from.
    spec fn sweep_profile(self) -> Shape2d;

    /// Builds the sweep node over `self` with the given length, with the
    /// contract of [`crate::shapes::Sweep::new`].
    fn sweep(self, length: i64) -> (r: Result<crate::shapes::Sweep, Error>) where Self: Sized
        requires
            self.sweep_profile().wf(),
        ensures
            match r {
                Ok(sw) => sw.wf() && sw.shape == self.sweep_profile() && sw.length == length,
                Err(e) => {
                    &&& e == Error::DegenerateGeometry || e == Error::NumericOverflow
                    &&& (e == Error::DegenerateGeometry <==> length < 1)
                    &&& (e == Error::NumericOverflow <==> length > TRANS_MAX)
                },
            };
}

impl Sweep for Shape2d {
    open spec fn sweep_profile(self) -> Shape2d {
        self
    }

    fn sweep(self, length: i64) -> (r: Result<crate::shapes::Sweep, Error>) {
        crate::shapes::Sweep::new(self, length)
    }
}

/// Subtracts one shape from another.
pub trait Difference {
    /// The shape the builder starts from.
    spec fn diff_base(self) -> Shape3d;

    /// Builds the difference node `self` minus `other`.
    fn difference(self, other: Shape3d) -> (r: crate::shapes::Difference) where Self: Sized
        ensures
            r.a == self.diff_base(),
            r.b == other;
}

impl Difference for Shape3d {
    open spec fn diff_base(self) -> Shape3d {
        self
    }

    fn difference(self, other: Shape3d) -> (r: crate::shapes::Difference) {
        crate::shapes::Difference { a: self, b: other }
    }
}

/// Joins two shapes into one.
pub trait Union {
    /// The shape the builder starts from.
    spec fn union_base(self) -> Shape3d;

    /// Builds the union node of `self` and `other`.
    fn union(self, other: Shape3d) -> (r: crate::shapes::Union) where Self: Sized
        ensures
            r.a == self.union_base(),
            r.b == other;
}

impl Union for Shape3d {
    open spec fn union_base(self) -> Shape3d {
        self
    }

    fn union(self, other: Shape3d) -> (r: crate::shapes::Union) {
        crate::shapes::Union { a: self, b: other }
    }
}

/// Moves a shape by an offset.
pub trait Translate {
    /// The shape the builder starts from.
    spec fn translate_base(self) -> Shape3d;

    /// Builds the transform node that translates `self` by `offset`,
    /// refusing an offset outside the transform entry bounds.
    fn translate(self, offset: (i64, i64, i64)) -> (r: Option<crate::shapes::Transform>)
        where Self: Sized
        ensures
            match r {
                Some(tr) => {
                    &&& tr.shape == self.translate_base()
                    &&& tr.matrix == translation_spec(offset.0, offset.1, offset.2)
                    &&& tr.matrix.wf()
                },
                None => !(-TRANS_MAX <= offset.0 <= TRANS_MAX
                    && -TRANS_MAX <= offset.1 <= TRANS_MAX
                    && -TRANS_MAX <= offset.2 <= TRANS_MAX),
            };
}

impl Translate for Shape3d {
    open spec fn translate_base(self) -> Shape3d {
        self
    }

    fn translate(self, offset: (i64, i64, i64)) -> (r: Option<crate::shapes::Transform>) {
        match Affine::translation(offset.0, offset.1, offset.2) {
            Some(m) => Some(crate::shapes::Transform { shape: self, matrix: m }),
            None => None,
        }
    }
}

} // verus!
