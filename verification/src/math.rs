//! Exact 3-D points, affine transforms and axis-aligned boxes.
//!
//! Coordinates are `i64` values in a caller-chosen unit. Transform entries
//! are bounded so that applying a transform to any representable point fits
//! in 128-bit intermediates; the result is range-checked back into `i64`.

use vstd::prelude::*;

verus! {

/// Largest magnitude allowed for a linear entry of an [`Affine`] transform.
pub const ENTRY_MAX: i64 = 1048576;

/// Largest magnitude allowed for a translation entry of an [`Affine`]
/// transform, and for coordinates the kernel's constructors accept.
pub const TRANS_MAX: i64 = 1152921504606846976;

/// A point (or vector) in 3-D space, in integer units.
#[derive(Clone, Copy, Debug, PartialEq, Eq, Structural)]
pub struct Point {
    pub x: i64,
    pub y: i64,
    pub z: i64,
}

/// An affine transform: a 3x3 linear part and a translation.
///
/// Row `x` of the linear part is `(xx, xy, xz)`, and so on; the image of a
/// point `p` has `x` coordinate `xx*p.x + xy*p.y + xz*p.z + tx`.
#[derive(Clone, Copy, Debug, PartialEq, Eq, Structural)]
pub struct Affine {
    pub xx: i64, pub xy: i64, pub xz: i64,
    pub yx: i64, pub yy: i64, pub yz: i64,
    pub zx: i64, pub zy: i64, pub zz: i64,
    pub tx: i64, pub ty: i64, pub tz: i64,
}

impl Affine {
    /// Entry bounds under which every application fits the intermediates.
    pub open spec fn wf(self) -> bool {
        &&& -ENTRY_MAX <= self.xx <= ENTRY_MAX
        &&& -ENTRY_MAX <= self.xy <= ENTRY_MAX
        &&& -ENTRY_MAX <= self.xz <= ENTRY_MAX
        &&& -ENTRY_MAX <= self.yx <= ENTRY_MAX
        &&& -ENTRY_MAX <= self.yy <= ENTRY_MAX
        &&& -ENTRY_MAX <= self.yz <= ENTRY_MAX
        &&& -ENTRY_MAX <= self.zx <= ENTRY_MAX
        &&& -ENTRY_MAX <= self.zy <= ENTRY_MAX
        &&& -ENTRY_MAX <= self.zz <= ENTRY_MAX
        &&& -TRANS_MAX <= self.tx <= TRANS_MAX
        &&& -TRANS_MAX <= self.ty <= TRANS_MAX
        &&& -TRANS_MAX <= self.tz <= TRANS_MAX
    }
}

/// The `x` coordinate of the image of `p` under `m`, as an unbounded integer.
pub open spec fn sax(m: Affine, p: Point) -> int {
    m.xx * p.x + m.xy * p.y + m.xz * p.z + m.tx
}

/// The `y` coordinate of the image of `p` under `m`, as an unbounded integer.
pub open spec fn say(m: Affine, p: Point) -> int {
    m.yx * p.x + m.yy * p.y + m.yz * p.z + m.ty
}

/// The `z` coordinate of the image of `p` under `m`, as an unbounded integer.
pub open spec fn saz(m: Affine, p: Point) -> int {
    m.zx * p.x + m.zy * p.y + m.zz * p.z + m.tz
}

/// Whether the image of `p` under `m` is representable in `i64` coordinates.
pub open spec fn apply_fits(m: Affine, p: Point) -> bool {
    &&& i64::MIN <= sax(m, p) <= i64::MAX
    &&& i64::MIN <= say(m, p) <= i64::MAX
    &&& i64::MIN <= saz(m, p) <= i64::MAX
}

/// The image of `p` under `m` as a point; meaningful when `apply_fits`.
pub open spec fn sapply(m: Affine, p: Point) -> Point {
    Point { x: sax(m, p) as i64, y: say(m, p) as i64, z: saz(m, p) as i64 }
}

/// The pure translation by `(tx, ty, tz)`, as a specification value.
pub open spec fn translation_spec(tx: i64, ty: i64, tz: i64) -> Affine {
    Affine {
        xx: 1, xy: 0, xz: 0,
        yx: 0, yy: 1, yz: 0,
        zx: 0, zy: 0, zz: 1,
        tx, ty, tz,
    }
}

/// The determinant of the linear part of `m`.
pub open spec fn sdet(m: Affine) -> int {
    m.xx * (m.yy * m.zz - m.yz * m.zy)
        - m.xy * (m.yx * m.zz - m.yz * m.zx)
        + m.xz * (m.yx * m.zy - m.yy * m.zx)
}

/// Whether `v` lies in the symmetric range `[-bound, bound]`.
fn within(v: i64, bound: i64) -> (r: bool)
    requires
        bound >= 0,
    ensures
        r == (-bound <= v <= bound),
{
    -bound <= v && v <= bound
}

proof fn lemma_mul_bound(a: int, b: int, bound_a: int, bound_b: int)
    by (nonlinear_arith)
    requires
        -bound_a <= a <= bound_a,
        -bound_b <= b <= bound_b,
        0 <= bound_a,
        0 <= bound_b,
    ensures
        -(bound_a * bound_b) <= a * b <= bound_a * bound_b,
{
}

impl Affine {
    /// Builds a transform from its twelve entries, refusing entries outside
    /// the kernel's fixed-point range.
    pub fn new(
        xx: i64, xy: i64, xz: i64,
        yx: i64, yy: i64, yz: i64,
        zx: i64, zy: i64, zz: i64,
        tx: i64, ty: i64, tz: i64,
    ) -> (r: Option<Affine>)
        ensures
            match r {
                Some(m) => m.wf() && m == (Affine { xx, xy, xz, yx, yy, yz, zx, zy, zz, tx, ty, tz }),
                None => !(Affine { xx, xy, xz, yx, yy, yz, zx, zy, zz, tx, ty, tz }).wf(),
            },
    {
        let m = Affine { xx, xy, xz, yx, yy, yz, zx, zy, zz, tx, ty, tz };
        if within(xx, ENTRY_MAX) && within(xy, ENTRY_MAX) && within(xz, ENTRY_MAX)
            && within(yx, ENTRY_MAX) && within(yy, ENTRY_MAX) && within(yz, ENTRY_MAX)
            && within(zx, ENTRY_MAX) && within(zy, ENTRY_MAX) && within(zz, ENTRY_MAX)
            && within(tx, TRANS_MAX) && within(ty, TRANS_MAX) && within(tz, TRANS_MAX)
        {
            Some(m)
        } else {
            None
        }
    }

    /// The identity transform.
    pub fn identity() -> (r: Affine)
        ensures
            r == translation_spec(0, 0, 0),
            r.wf(),
            forall|p: Point| sax(r, p) == p.x && say(r, p) == p.y && saz(r, p) == p.z,
            sdet(r) == 1,
    {
        Affine {
            xx: 1, xy: 0, xz: 0,
            yx: 0, yy: 1, yz: 0,
            zx: 0, zy: 0, zz: 1,
            tx: 0, ty: 0, tz: 0,
        }
    }

    /// A pure translation by `(tx, ty, tz)`.
    pub fn translation(tx: i64, ty: i64, tz: i64) -> (r: Option<Affine>)
        ensures
            match r {
                Some(m) => {
                    &&& m == translation_spec(tx, ty, tz)
                    &&& m.wf()
                    &&& sdet(m) == 1
                    &&& forall|p: Point|
                        sax(m, p) == p.x + tx && say(m, p) == p.y + ty && saz(m, p) == p.z + tz
                },
                None => !(-TRANS_MAX <= tx <= TRANS_MAX && -TRANS_MAX <= ty <= TRANS_MAX
                    && -TRANS_MAX <= tz <= TRANS_MAX),
            },
    {
        if within(tx, TRANS_MAX) && within(ty, TRANS_MAX) && within(tz, TRANS_MAX) {
            Some(Affine {
                xx: 1, xy: 0, xz: 0,
                yx: 0, yy: 1, yz: 0,
                zx: 0, zy: 0, zz: 1,
                tx, ty, tz,
            })
        } else {
            None
        }
    }

    /// Applies the transform to a point, refusing results that leave the
    /// representable coordinate range.
    pub fn apply(&self, p: Point) -> (r: Option<Point>)
        requires
            self.wf(),
        ensures
            match r {
                Some(q) => apply_fits(*self, p) && q == sapply(*self, p),
                None => !apply_fits(*self, p),
            },
    {
        proof {
            lemma_mul_bound(self.xx as int, p.x as int, ENTRY_MAX as int, i64::MAX as int + 1);
            lemma_mul_bound(self.xy as int, p.y as int, ENTRY_MAX as int, i64::MAX as int + 1);
            lemma_mul_bound(self.xz as int, p.z as int, ENTRY_MAX as int, i64::MAX as int + 1);
            lemma_mul_bound(self.yx as int, p.x as int, ENTRY_MAX as int, i64::MAX as int + 1);
            lemma_mul_bound(self.yy as int, p.y as int, ENTRY_MAX as int, i64::MAX as int + 1);
            lemma_mul_bound(self.yz as int, p.z as int, ENTRY_MAX as int, i64::MAX as int + 1);
            lemma_mul_bound(self.zx as int, p.x as int, ENTRY_MAX as int, i64::MAX as int + 1);
            lemma_mul_bound(self.zy as int, p.y as int, ENTRY_MAX as int, i64::MAX as int + 1);
            lemma_mul_bound(self.zz as int, p.z as int, ENTRY_MAX as int, i64::MAX as int + 1);
        }
        let vx: i128 = (self.xx as i128) * (p.x as i128) + (self.xy as i128) * (p.y as i128)
            + (self.xz as i128) * (p.z as i128) + (self.tx as i128);
        let vy: i128 = (self.yx as i128) * (p.x as i128) + (self.yy as i128) * (p.y as i128)
            + (self.yz as i128) * (p.z as i128) + (self.ty as i128);
        let vz: i128 = (self.zx as i128) * (p.x as i128) + (self.zy as i128) * (p.y as i128)
            + (self.zz as i128) * (p.z as i128) + (self.tz as i128);
        if vx >= i64::MIN as i128 && vx <= i64::MAX as i128
            && vy >= i64::MIN as i128 && vy <= i64::MAX as i128
            && vz >= i64::MIN as i128 && vz <= i64::MAX as i128
        {
            Some(Point { x: vx as i64, y: vy as i64, z: vz as i64 })
        } else {
            None
        }
    }

    /// The determinant of the linear part; its sign decides whether the
    /// transform mirrors (and triangle winding must flip).
    pub fn det(&self) -> (r: i64)
        requires
            self.wf(),
        ensures
            r == sdet(*self),
    {
        proof {
            lemma_mul_bound(self.yy as int, self.zz as int, ENTRY_MAX as int, ENTRY_MAX as int);
            lemma_mul_bound(self.yz as int, self.zy as int, ENTRY_MAX as int, ENTRY_MAX as int);
            lemma_mul_bound(self.yx as int, self.zz as int, ENTRY_MAX as int, ENTRY_MAX as int);
            lemma_mul_bound(self.yz as int, self.zx as int, ENTRY_MAX as int, ENTRY_MAX as int);
            lemma_mul_bound(self.yx as int, self.zy as int, ENTRY_MAX as int, ENTRY_MAX as int);
            lemma_mul_bound(self.yy as int, self.zx as int, ENTRY_MAX as int, ENTRY_MAX as int);
            lemma_mul_bound(
                self.xx as int,
                self.yy * self.zz - self.yz * self.zy,
                ENTRY_MAX as int,
                2 * ENTRY_MAX * ENTRY_MAX,
            );
            lemma_mul_bound(
                self.xy as int,
                self.yx * self.zz - self.yz * self.zx,
                ENTRY_MAX as int,
                2 * ENTRY_MAX * ENTRY_MAX,
            );
            lemma_mul_bound(
                self.xz as int,
                self.yx * self.zy - self.yy * self.zx,
                ENTRY_MAX as int,
                2 * ENTRY_MAX * ENTRY_MAX,
            );
        }
        let c0: i128 = (self.yy as i128) * (self.zz as i128) - (self.yz as i128) * (self.zy as i128);
        let c1: i128 = (self.yx as i128) * (self.zz as i128) - (self.yz as i128) * (self.zx as i128);
        let c2: i128 = (self.yx as i128) * (self.zy as i128) - (self.yy as i128) * (self.zx as i128);
        let d: i128 = (self.xx as i128) * c0 - (self.xy as i128) * c1 + (self.xz as i128) * c2;
        assert(-0x7fffffffffffffff <= d <= 0x7fffffffffffffff);
        d as i64
    }
}

/// The degenerate box holding the single point `p`.
pub open spec fn point_box(p: Point) -> Aabb {
    Aabb { mins: p, maxs: p }
}

/// The smallest box containing both operands, as a specification value.
pub open spec fn box_merge(a: Aabb, b: Aabb) -> Aabb {
    Aabb {
        mins: Point {
            x: if a.mins.x <= b.mins.x { a.mins.x } else { b.mins.x },
            y: if a.mins.y <= b.mins.y { a.mins.y } else { b.mins.y },
            z: if a.mins.z <= b.mins.z { a.mins.z } else { b.mins.z },
        },
        maxs: Point {
            x: if a.maxs.x >= b.maxs.x { a.maxs.x } else { b.maxs.x },
            y: if a.maxs.y >= b.maxs.y { a.maxs.y } else { b.maxs.y },
            z: if a.maxs.z >= b.maxs.z { a.maxs.z } else { b.maxs.z },
        },
    }
}

/// An axis-aligned bounding box, given by its two extreme corners.
#[derive(Clone, Copy, Debug, PartialEq, Eq, Structural)]
pub struct Aabb {
    pub mins: Point,
    pub maxs: Point,
}

impl Aabb {
    /// A box is well-formed when no minimum exceeds its maximum.
    pub open spec fn wf(self) -> bool {
        self.mins.x <= self.maxs.x && self.mins.y <= self.maxs.y && self.mins.z <= self.maxs.z
    }

    /// Whether `p` lies inside the box (boundary included).
    pub open spec fn spec_contains(self, p: Point) -> bool {
        &&& self.mins.x <= p.x <= self.maxs.x
        &&& self.mins.y <= p.y <= self.maxs.y
        &&& self.mins.z <= p.z <= self.maxs.z
    }

    /// Runtime containment test, equal to the specification.
    pub fn contains(&self, p: Point) -> (r: bool)
        ensures
            r == self.spec_contains(p),
    {
        self.mins.x <= p.x && p.x <= self.maxs.x
            && self.mins.y <= p.y && p.y <= self.maxs.y
            && self.mins.z <= p.z && p.z <= self.maxs.z
    }

    /// The smallest box containing both operands.
    pub fn merged(&self, other: &Aabb) -> (r: Aabb)
        ensures
            r == box_merge(*self, *other),
            r.mins.x == if self.mins.x <= other.mins.x { self.mins.x } else { other.mins.x },
            r.mins.y == if self.mins.y <= other.mins.y { self.mins.y } else { other.mins.y },
            r.mins.z == if self.mins.z <= other.mins.z { self.mins.z } else { other.mins.z },
            r.maxs.x == if self.maxs.x >= other.maxs.x { self.maxs.x } else { other.maxs.x },
            r.maxs.y == if self.maxs.y >= other.maxs.y { self.maxs.y } else { other.maxs.y },
            r.maxs.z == if self.maxs.z >= other.maxs.z { self.maxs.z } else { other.maxs.z },
            forall|p: Point| self.spec_contains(p) ==> r.spec_contains(p),
            forall|p: Point| other.spec_contains(p) ==> r.spec_contains(p),
    {
        Aabb {
            mins: Point {
                x: if self.mins.x <= other.mins.x { self.mins.x } else { other.mins.x },
                y: if self.mins.y <= other.mins.y { self.mins.y } else { other.mins.y },
                z: if self.mins.z <= other.mins.z { self.mins.z } else { other.mins.z },
            },
            maxs: Point {
                x: if self.maxs.x >= other.maxs.x { self.maxs.x } else { other.maxs.x },
                y: if self.maxs.y >= other.maxs.y { self.maxs.y } else { other.maxs.y },
                z: if self.maxs.z >= other.maxs.z { self.maxs.z } else { other.maxs.z },
            },
        }
    }

    /// The corner of the box selected by three bits, low bit choosing between
    /// `mins.x` and `maxs.x`, and so on; indices 0 to 7 cover all corners.
    pub open spec fn spec_corner(self, i: int) -> Point {
        Point {
            x: if i % 2 == 1 { self.maxs.x } else { self.mins.x },
            y: if (i / 2) % 2 == 1 { self.maxs.y } else { self.mins.y },
            z: if (i / 4) % 2 == 1 { self.maxs.z } else { self.mins.z },
        }
    }

    /// Returns the corner selected by `i`, equal to the specification.
    pub fn corner(&self, i: usize) -> (r: Point)
        requires
            i < 8,
        ensures
            r == self.spec_corner(i as int),
    {
        Point {
            x: if i % 2 == 1 { self.maxs.x } else { self.mins.x },
            y: if (i / 2) % 2 == 1 { self.maxs.y } else { self.mins.y },
            z: if (i / 4) % 2 == 1 { self.maxs.z } else { self.mins.z },
        }
    }
}

} // verus!

verus! {

/// The box of the images of the first `n` corners of `bb` under `m`
/// (meaningful for `1 <= n <= 8`).
pub open spec fn corners_box(m: Affine, bb: Aabb, n: int) -> Aabb
    decreases n,
{
    if n <= 1 {
        point_box(sapply(m, bb.spec_corner(0)))
    } else {
        box_merge(corners_box(m, bb, n - 1), point_box(sapply(m, bb.spec_corner(n - 1))))
    }
}

/// Every transformed corner of `bb` lies inside the corner box.
pub proof fn lemma_corners_box_contains(m: Affine, bb: Aabb, n: int, i: int)
    requires
        0 <= i < n,
        n <= 8,
    ensures
        corners_box(m, bb, n).spec_contains(sapply(m, bb.spec_corner(i))),
    decreases n,
{
    if n > 1 && i < n - 1 {
        lemma_corners_box_contains(m, bb, n - 1, i);
    }
}

} // verus!

verus! {

/// The rotation by `k` quarter turns counter-clockwise about a coordinate
/// axis (`0` = x, `1` = y, `2` = z), as a specification value; meaningful
/// for `k` below four.
pub open spec fn quarter_rotation_spec(axis: u8, k: u8) -> Affine {
    let c: i64 = if k == 0 { 1 } else if k == 2 { -1i64 } else { 0 };
    let s: i64 = if k == 1 { 1 } else if k == 3 { -1i64 } else { 0 };
    let ns: i64 = if k == 1 { -1i64 } else if k == 3 { 1 } else { 0 };
    if axis == 0 {
        Affine { xx: 1, xy: 0, xz: 0, yx: 0, yy: c, yz: ns, zx: 0, zy: s, zz: c,
            tx: 0, ty: 0, tz: 0 }
    } else if axis == 1 {
        Affine { xx: c, xy: 0, xz: s, yx: 0, yy: 1, yz: 0, zx: ns, zy: 0, zz: c,
            tx: 0, ty: 0, tz: 0 }
    } else {
        Affine { xx: c, xy: ns, xz: 0, yx: s, yy: c, yz: 0, zx: 0, zy: 0, zz: 1,
            tx: 0, ty: 0, tz: 0 }
    }
}

impl Affine {
    /// The exact rotation by `quarters` quarter turns counter-clockwise
    /// about a coordinate axis (`0` = x, `1` = y, `2` = z): the only
    /// rotations the integer grid represents without distortion.
    pub fn quarter_rotation(axis: u8, quarters: u8) -> (r: Affine)
        requires
            axis < 3,
        ensures
            r == quarter_rotation_spec(axis, quarters % 4),
            r.wf(),
            sdet(r) == 1,
            r.tx == 0 && r.ty == 0 && r.tz == 0,
    {
        let k: u8 = quarters % 4;
        let (c, s): (i64, i64) = if k == 0 {
            (1, 0)
        } else if k == 1 {
            (0, 1)
        } else if k == 2 {
            (-1, 0)
        } else {
            (0, -1)
        };
        let m = if axis == 0 {
            Affine { xx: 1, xy: 0, xz: 0, yx: 0, yy: c, yz: -s, zx: 0, zy: s, zz: c,
                tx: 0, ty: 0, tz: 0 }
        } else if axis == 1 {
            Affine { xx: c, xy: 0, xz: s, yx: 0, yy: 1, yz: 0, zx: -s, zy: 0, zz: c,
                tx: 0, ty: 0, tz: 0 }
        } else {
            Affine { xx: c, xy: -s, xz: 0, yx: s, yy: c, yz: 0, zx: 0, zy: 0, zz: 1,
                tx: 0, ty: 0, tz: 0 }
        };
        proof {
            if axis == 0 {
                assert(sdet(m) == 1) by (nonlinear_arith)
                    requires m.xx == 1 && m.xy == 0 && m.xz == 0 && m.yx == 0 && m.zx == 0
                        && m.yy as int == c as int && m.zz as int == c as int
                        && m.yz as int == -(s as int) && m.zy as int == s as int
                        && c as int * c as int + s as int * s as int == 1;
            } else if axis == 1 {
                assert(sdet(m) == 1) by (nonlinear_arith)
                    requires m.yy == 1 && m.xy == 0 && m.yx == 0 && m.yz == 0 && m.zy == 0
                        && m.xx as int == c as int && m.zz as int == c as int
                        && m.xz as int == s as int && m.zx as int == -(s as int)
                        && c as int * c as int + s as int * s as int == 1;
            } else {
                assert(sdet(m) == 1) by (nonlinear_arith)
                    requires m.zz == 1 && m.xz == 0 && m.yz == 0 && m.zx == 0 && m.zy == 0
                        && m.xx as int == c as int && m.yy as int == c as int
                        && m.xy as int == -(s as int) && m.yx as int == s as int
                        && c as int * c as int + s as int * s as int == 1;
            }
        }
        m
    }
}

} // verus!
