//! One-dimensional shapes: lines and circles.
//!
//! "Curve" is the umbrella term for unbounded one-dimensional geometry;
//! edges are bounded portions of curves. A curve can be transformed and can
//! be approximated, to a positive tolerance, by an ordered polyline.
//!
//! A circle lies in a plane parallel to the `xy` plane through its center.
//! Its polyline is built from exact integer points: in the first octant the
//! sample at height `y` is `(isqrt(r*r - y*y), y)`, which lies on the circle
//! to within one coordinate unit, and the rest of the circle is covered by
//! the eight symmetries of the square grid. The step between heights grows
//! with the tolerance and the radius, so that the sagitta of each chord
//! stays within the tolerance once the tolerance covers a few grid units.

use vstd::prelude::*;

use crate::Error;
use crate::math::{Affine, Point, TRANS_MAX, sapply, sax, say, saz, apply_fits};

verus! {

/// Largest radius a circle may have, so squared radii fit in 63 bits.
pub const RADIUS_MAX: i64 = 2147483648;

/// The absolute value of an integer.
pub open spec fn sabs(v: int) -> int {
    if v < 0 { -v } else { v }
}

/// The larger of two integers.
pub open spec fn smax(a: int, b: int) -> int {
    if a >= b { a } else { b }
}

/// The smaller of two integers.
pub open spec fn smin(a: int, b: int) -> int {
    if a <= b { a } else { b }
}

/// `q` is the integer square root of `n`.
pub open spec fn is_sqrt(q: int, n: int) -> bool {
    0 <= q && q * q <= n && n < (q + 1) * (q + 1)
}

/// The integer square root of `n` (meaningful for `n >= 0`).
pub open spec fn sisqrt(n: int) -> int {
    choose|q: int| is_sqrt(q, n)
}

pub(crate) proof fn lemma_sqrt_exists(n: int)
    requires
        n >= 0,
    ensures
        is_sqrt(sisqrt(n), n),
    decreases n,
{
    if n == 0 {
        assert(is_sqrt(0, 0)) by (nonlinear_arith);
    } else {
        lemma_sqrt_exists(n - 1);
        let q = sisqrt(n - 1);
        if (q + 1) * (q + 1) <= n {
            assert(is_sqrt(q + 1, n)) by (nonlinear_arith)
                requires is_sqrt(q, n - 1) && (q + 1) * (q + 1) <= n;
        } else {
            assert(is_sqrt(q, n));
        }
    }
    let w = choose|w: int| is_sqrt(w, n);
    assert(is_sqrt(w, n));
}

proof fn lemma_sqrt_unique(q1: int, q2: int, n: int)
    by (nonlinear_arith)
    requires
        is_sqrt(q1, n),
        is_sqrt(q2, n),
    ensures
        q1 == q2,
{
}

proof fn lemma_sqrt_le(a: int, b: int)
    requires
        0 <= a <= b,
    ensures
        sisqrt(a) <= sisqrt(b),
{
    lemma_sqrt_exists(a);
    lemma_sqrt_exists(b);
    assert(sisqrt(a) <= sisqrt(b)) by (nonlinear_arith)
        requires is_sqrt(sisqrt(a), a) && is_sqrt(sisqrt(b), b) && a <= b;
}

/// The integer square root, by binary search.
fn isqrt(n: u64) -> (r: u64)
    ensures
        is_sqrt(r as int, n as int),
        r as int == sisqrt(n as int),
{
    let mut lo: u64 = 0;
    let mut hi: u64 = 4294967295;
    proof {
        assert((4294967295u64 as int + 1) * (4294967295u64 as int + 1) > u64::MAX as int)
            by (nonlinear_arith);
    }
    while lo < hi
        invariant
            lo <= hi,
            hi <= 4294967295,
            lo * lo <= n,
            (n as int) < (hi as int + 1) * (hi as int + 1),
        decreases hi - lo,
    {
        let mid: u64 = lo + (hi - lo + 1) / 2;
        proof {
            assert(mid * mid <= 4294967295u64 * 4294967295u64) by (nonlinear_arith)
                requires mid <= 4294967295u64;
        }
        if mid * mid <= n {
            lo = mid;
        } else {
            hi = mid - 1;
        }
    }
    proof {
        lemma_sqrt_exists(n as int);
        lemma_sqrt_unique(lo as int, sisqrt(n as int), n as int);
    }
    lo
}

/// A line, defined by two points.
///
/// The points also define the line's one-dimensional coordinate system:
/// `a` is coordinate `0`, `b` is coordinate `1`.
#[derive(Clone, Copy, Debug, PartialEq, Eq, Structural)]
pub struct Line {
    /// The first point that defines the line.
    pub a: Point,
    /// The second point that defines the line.
    pub b: Point,
}

impl Line {
    /// Transforms both defining points, refusing images that leave the
    /// representable coordinate range.
    pub fn transform(self, transform: &Affine) -> (r: Option<Line>)
        requires
            transform.wf(),
        ensures
            match r {
                Some(l) => {
                    &&& apply_fits(*transform, self.a) && apply_fits(*transform, self.b)
                    &&& l.a == sapply(*transform, self.a)
                    &&& l.b == sapply(*transform, self.b)
                },
                None => !(apply_fits(*transform, self.a) && apply_fits(*transform, self.b)),
            },
    {
        match (transform.apply(self.a), transform.apply(self.b)) {
            (Some(a), Some(b)) => Some(Line { a, b }),
            _ => None,
        }
    }
}

/// A transform whose linear part moves the grid rigidly while keeping
/// planes parallel to `xy` parallel to `xy`: the `xy` block is a signed
/// permutation of the two axes and `z` maps to plus or minus `z`.
/// Such transforms carry circles to circles.
pub open spec fn rigid_xy(m: Affine) -> bool {
    &&& m.xz == 0 && m.yz == 0 && m.zx == 0 && m.zy == 0
    &&& (m.zz == 1 || m.zz == -1)
    &&& {
        ||| (sabs(m.xx as int) == 1 && sabs(m.yy as int) == 1 && m.xy == 0 && m.yx == 0)
        ||| (m.xx == 0 && m.yy == 0 && sabs(m.xy as int) == 1 && sabs(m.yx as int) == 1)
    }
}

/// A circle, lying in the plane parallel to `xy` through its center.
///
/// The orientation is fixed: the kernel's integer grid cannot hold a
/// tilted circle exactly, so a transform that would tilt one is refused —
/// `Circle::transform` demands a `rigid_xy` transform, and shape
/// evaluation surfaces anything else as `UnsupportedOperation`.
#[derive(Clone, Copy, Debug, PartialEq, Eq, Structural)]
pub struct Circle {
    /// The center of the circle.
    pub center: Point,
    /// The radius, in coordinate units.
    pub radius: i64,
}

impl Circle {
    /// Bounds under which sampling and rigid transforms stay in range.
    pub open spec fn wf(self) -> bool {
        &&& 1 <= self.radius <= RADIUS_MAX
        &&& -TRANS_MAX <= self.center.x <= TRANS_MAX
        &&& -TRANS_MAX <= self.center.y <= TRANS_MAX
        &&& -TRANS_MAX <= self.center.z <= TRANS_MAX
    }

    /// Builds a circle, rejecting a non-positive radius as degenerate and
    /// out-of-range values as overflow.
    pub fn new(center: Point, radius: i64) -> (r: Result<Circle, Error>)
        ensures
            match r {
                Ok(c) => c.wf() && c == (Circle { center, radius }),
                Err(e) => {
                    &&& !(Circle { center, radius }).wf()
                    &&& (e == Error::DegenerateGeometry <==> radius < 1)
                    &&& e == Error::DegenerateGeometry || e == Error::NumericOverflow
                },
            },
    {
        if radius < 1 {
            Err(Error::DegenerateGeometry)
        } else if radius > RADIUS_MAX
            || center.x < -TRANS_MAX || center.x > TRANS_MAX
            || center.y < -TRANS_MAX || center.y > TRANS_MAX
            || center.z < -TRANS_MAX || center.z > TRANS_MAX
        {
            Err(Error::NumericOverflow)
        } else {
            Ok(Circle { center, radius })
        }
    }

    /// Moves the circle by a transform that carries circles to circles;
    /// the center moves, the radius is unchanged. Refuses a moved center
    /// outside the constructor's bounds.
    pub fn transform(self, transform: &Affine) -> (r: Option<Circle>)
        requires
            transform.wf(),
            rigid_xy(*transform),
            self.wf(),
        ensures
            match r {
                Some(c) => {
                    &&& apply_fits(*transform, self.center)
                    &&& c.center == sapply(*transform, self.center)
                    &&& c.radius == self.radius
                    &&& c.wf()
                },
                None => !(-TRANS_MAX <= sax(*transform, self.center) <= TRANS_MAX
                    && -TRANS_MAX <= say(*transform, self.center) <= TRANS_MAX
                    && -TRANS_MAX <= saz(*transform, self.center) <= TRANS_MAX),
            },
    {
        let center = match transform.apply(self.center) {
            Some(c) => c,
            None => {
                return None;
            },
        };
        if center.x >= -TRANS_MAX && center.x <= TRANS_MAX
            && center.y >= -TRANS_MAX && center.y <= TRANS_MAX
            && center.z >= -TRANS_MAX && center.z <= TRANS_MAX
        {
            Some(Circle { center: center, radius: self.radius })
        } else {
            None
        }
    }
}

/// The tolerance clamped to the radius: steps beyond the radius gain nothing.
pub open spec fn step_tol(r: int, t: int) -> int {
    smin(t, r)
}

/// The height step between octant samples for radius `r` and tolerance `t`:
/// chosen so that each chord's sagitta, including the wider chord where two
/// octants meet, stays within the tolerance.
pub open spec fn step(r: int, t: int) -> int {
    smax(1, sisqrt(r * step_tol(r, t) / 2))
}

/// The number of height steps that stay inside the first octant.
pub open spec fn oct_steps(r: int, t: int) -> int {
    sisqrt(r * r / 2) / step(r, t)
}

/// The first-octant sample at height step `k`: exactly on the grid column
/// `k * step`, and on the circle of radius `r` to within one unit.
pub open spec fn oct_off(r: int, t: int, k: int) -> (int, int) {
    (sisqrt(r * r - (k * step(r, t)) * (k * step(r, t))), k * step(r, t))
}

/// The sample `j` of the first quadrant, counted counter-clockwise from
/// `(r, 0)`: the first octant followed by its mirror across the diagonal.
pub open spec fn quarter_off(r: int, t: int, j: int) -> (int, int) {
    let n = oct_steps(r, t);
    if j <= n {
        oct_off(r, t, j)
    } else {
        let (x, y) = oct_off(r, t, 2 * n + 1 - j);
        (y, x)
    }
}

/// Rotates an offset by `q` quarter turns counter-clockwise about `z`.
pub open spec fn rot_quarter(q: int, off: (int, int)) -> (int, int) {
    let (x, y) = off;
    if q % 4 == 0 {
        (x, y)
    } else if q % 4 == 1 {
        (-y, x)
    } else if q % 4 == 2 {
        (-x, -y)
    } else {
        (y, -x)
    }
}

/// How many samples one quadrant contributes before the next begins.
pub open spec fn quadrant_len(r: int, t: int) -> int {
    2 * oct_steps(r, t) + 1
}

/// The number of samples of the closed circle polyline: four quadrants
/// and the closing copy of the first sample.
pub open spec fn circle_count(r: int, t: int) -> int {
    4 * quadrant_len(r, t) + 1
}

/// Sample `j` of the circle of radius `r`, as an offset from the center,
/// counter-clockwise from `(r, 0)`; the last sample closes the loop.
pub open spec fn circle_off(r: int, t: int, j: int) -> (int, int) {
    let ql = quadrant_len(r, t);
    if j == 4 * ql {
        (r, 0)
    } else {
        rot_quarter(j / ql, quarter_off(r, t, j % ql))
    }
}

/// Sample `j` of `c`'s polyline at tolerance `t`, as a point.
pub open spec fn circle_pt(c: Circle, t: int, j: int) -> Point {
    let (ox, oy) = circle_off(c.radius as int, t, j);
    Point {
        x: (c.center.x + ox) as i64,
        y: (c.center.y + oy) as i64,
        z: c.center.z,
    }
}

/// The full closed polyline of `c` at tolerance `t`.
pub open spec fn circle_pts(c: Circle, t: int) -> Seq<Point> {
    Seq::new(circle_count(c.radius as int, t) as nat, |j: int| circle_pt(c, t, j))
}

} // verus!

use vstd::arithmetic::div_mod::lemma_fundamental_div_mod;
use vstd::assert_seqs_equal;

verus! {

impl Circle {
    /// Appends the closed sample polyline of the circle to `out`.
    fn push_approx(&self, tolerance: i64, out: &mut Vec<Point>)
        requires
            self.wf(),
            tolerance >= 1,
        ensures
            final(out)@ == old(out)@ + circle_pts(*self, tolerance as int),
    {
        let ghost tt = tolerance as int;
        let ghost rr = self.radius as int;
        let r: u64 = self.radius as u64;
        let t_eff: u64 = if tolerance <= self.radius { tolerance as u64 } else { r };
        assert(t_eff as int == step_tol(rr, tt));
        proof {
            assert((r as int) * (t_eff as int) <= u64::MAX as int) by (nonlinear_arith)
                requires 1 <= r <= 2147483648 && 1 <= t_eff <= r;
        }
        let d64: u64 = isqrt(r * t_eff / 2);
        let d: u64 = if d64 < 1 { 1 } else { d64 };
        assert(d as int == step(rr, tt));
        proof {
            assert((r as int) * (r as int) <= u64::MAX as int) by (nonlinear_arith)
                requires 1 <= r <= 2147483648;
        }
        let rsq: u64 = r * r;
        let wq: u64 = isqrt(rsq / 2);
        let n: u64 = wq / d;
        assert(n as int == oct_steps(rr, tt));
        proof {
            lemma_fundamental_div_mod(wq as int, d as int);
            assert(n as int * d as int <= wq as int) by (nonlinear_arith)
                requires wq as int == d as int * (n as int) + (wq as int % d as int)
                    && wq as int % d as int >= 0;
            assert(is_sqrt(r as int, (r as int) * (r as int))) by (nonlinear_arith)
                requires r >= 0;
            lemma_sqrt_unique(r as int, sisqrt(rsq as int), rsq as int);
            assert(wq as int <= r as int) by {
                lemma_sqrt_le(rsq as int / 2, rsq as int);
            }
        }
        let ql: u64 = 2 * n + 1;
        let total: u64 = 4 * ql + 1;
        let mut j: u64 = 0;
        while j < total
            invariant
                self.wf(),
                tolerance >= 1,
                tt == tolerance as int,
                rr == self.radius as int,
                r == self.radius as u64,
                d as int == step(rr, tt),
                n as int == oct_steps(rr, tt),
                n as int * d as int <= sisqrt(rr * rr / 2),
                sisqrt(rr * rr / 2) <= rr,
                rsq as int == rr * rr,
                ql == 2 * n + 1,
                total == 4 * ql + 1,
                j <= total,
                out@ == old(out)@ + Seq::new(j as nat, |i: int| circle_pt(*self, tt, i)),
            decreases total - j,
        {
            let ghost jj = j as int;
            let (ox, oy): (i64, i64) = if j == 4 * ql {
                (self.radius, 0)
            } else {
                let q: u64 = j / ql;
                let w: u64 = j % ql;
                proof {
                    lemma_fundamental_div_mod(j as int, ql as int);
                    assert(q <= 3 && w < ql) by (nonlinear_arith)
                        requires j as int == ql as int * (q as int) + (w as int)
                            && 0 <= w as int && (w as int) < (ql as int) && j < 4 * ql && ql >= 1
                            && q as int == j as int / ql as int
                            && w as int == j as int % ql as int;
                }
                let k: u64 = if w <= n { w } else { 2 * n + 1 - w };
                proof {
                    assert(k as int * d as int <= n as int * d as int) by (nonlinear_arith)
                        requires k <= n && d >= 1;
                }
                let y: u64 = k * d;
                proof {
                    assert(y as int * y as int <= r as int * r as int) by (nonlinear_arith)
                        requires 0 <= y as int && y as int <= r as int;
                }
                let ysq: u64 = y * y;
                let x: u64 = isqrt(rsq - ysq);
                proof {
                    assert(is_sqrt(r as int, rsq as int)) by (nonlinear_arith)
                        requires rsq as int == (r as int) * (r as int) && r >= 0;
                    assert(x as int <= r as int) by {
                        lemma_sqrt_le(rsq as int - ysq as int, rsq as int);
                        lemma_sqrt_unique(r as int, sisqrt(rsq as int), rsq as int);
                    }
                    assert(oct_off(rr, tt, k as int) == (x as int, y as int));
                }
                let (ax, ay): (i64, i64) = if w <= n {
                    (x as i64, y as i64)
                } else {
                    (y as i64, x as i64)
                };
                assert((ax as int, ay as int) == quarter_off(rr, tt, w as int));
                if q == 0 {
                    (ax, ay)
                } else if q == 1 {
                    (-ay, ax)
                } else if q == 2 {
                    (-ax, -ay)
                } else {
                    (ay, -ax)
                }
            };
            assert((ox as int, oy as int) == circle_off(rr, tt, jj));
            let p = Point {
                x: self.center.x + ox,
                y: self.center.y + oy,
                z: self.center.z,
            };
            assert(p == circle_pt(*self, tt, jj));
            out.push(p);
            proof {
                assert(out@ == old(out)@ + Seq::new((j + 1) as nat, |i: int| circle_pt(*self, tt, i)))
                    by {
                    assert_seqs_equal!(
                        out@,
                        old(out)@ + Seq::new((j + 1) as nat, |i: int| circle_pt(*self, tt, i))
                    );
                }
            }
            j = j + 1;
        }
        assert(out@ == old(out)@ + circle_pts(*self, tt)) by {
            assert_seqs_equal!(out@, old(out)@ + circle_pts(*self, tt));
        }
    }
}

/// The image of a curve under `m`; meaningful when `curve_xform_ok` holds.
pub open spec fn curve_xform(m: Affine, c: Curve) -> Curve {
    match c {
        Curve::Line(l) => Curve::Line(Line { a: sapply(m, l.a), b: sapply(m, l.b) }),
        Curve::Circle(ci) => Curve::Circle(
            Circle { center: sapply(m, ci.center), radius: ci.radius },
        ),
    }
}

/// Whether a curve's image under `m` is representable: line endpoints in
/// coordinate range, a circle's moved center within the circle bounds.
pub open spec fn curve_xform_ok(m: Affine, c: Curve) -> bool {
    match c {
        Curve::Line(l) => apply_fits(m, l.a) && apply_fits(m, l.b),
        Curve::Circle(ci) => {
            &&& apply_fits(m, ci.center)
            &&& -TRANS_MAX <= sax(m, ci.center) <= TRANS_MAX
            &&& -TRANS_MAX <= say(m, ci.center) <= TRANS_MAX
            &&& -TRANS_MAX <= saz(m, ci.center) <= TRANS_MAX
        },
    }
}


/// A one-dimensional shape.
///
/// The word "curve" is used as an umbrella term for all one-dimensional
/// shapes and does not imply that those shapes need to be curved; straight
/// lines are included.
#[derive(Clone, Copy, Debug, PartialEq, Eq, Structural)]
pub enum Curve {
    /// A circle.
    Circle(Circle),
    /// A line.
    Line(Line),
}

impl Curve {
    /// Bounds under which the curve can be sampled and moved rigidly.
    pub open spec fn wf(self) -> bool {
        match self {
            Curve::Circle(c) => c.wf(),
            Curve::Line(_) => true,
        }
    }
}

/// The polyline that approximates `c` at tolerance `t`: the two endpoints
/// for a line, the closed sample loop for a circle.
pub open spec fn curve_pts(c: Curve, t: int) -> Seq<Point> {
    match c {
        Curve::Line(l) => seq![l.a, l.b],
        Curve::Circle(ci) => circle_pts(ci, t),
    }
}

impl Curve {
    /// Transforms the curve. A circle moves only under transforms that
    /// carry circles to circles (`rigid_xy`); a line moves under any
    /// transform. Refuses results outside the representable range.
    pub fn transform(self, transform: &Affine) -> (r: Option<Curve>)
        requires
            transform.wf(),
            self.wf(),
            self is Circle ==> rigid_xy(*transform),
        ensures
            match r {
                Some(c) => {
                    &&& c.wf()
                    &&& curve_xform_ok(*transform, self)
                    &&& c == curve_xform(*transform, self)
                },
                None => !curve_xform_ok(*transform, self),
            },
    {
        match self {
            Curve::Circle(circle) => match circle.transform(transform) {
                Some(c) => Some(Curve::Circle(c)),
                None => None,
            },
            Curve::Line(line) => match line.transform(transform) {
                Some(l) => Some(Curve::Line(l)),
                None => None,
            },
        }
    }

    /// Appends the polyline approximation of the curve to `out`.
    ///
    /// Consecutive appended points, joined by straight segments, stand for
    /// the curve; for a line the approximation is exactly the two defining
    /// points, and for a circle it is the closed sample loop. The contract
    /// states that every circle sample lies on the circle to within one
    /// coordinate unit; the chord sagitta then stays within the tolerance
    /// because the step between samples is chosen from the radius and the
    /// tolerance (a real-valued bound the integer contract cannot carry;
    /// the tests measure it). A tolerance below one unit is rejected
    /// before any sampling occurs.
    pub fn approx_vertices(&self, tolerance: i64, out: &mut Vec<Point>) -> (r: Result<(), Error>)
        requires
            self.wf(),
        ensures
            match r {
                Ok(()) => {
                    &&& tolerance >= 1
                    &&& final(out)@ == old(out)@ + curve_pts(*self, tolerance as int)
                    &&& (*self matches Curve::Circle(ci) ==> forall|j: int|
                        old(out)@.len() <= j < final(out)@.len() ==> {
                            let dx = (#[trigger] final(out)@[j]).x - ci.center.x;
                            let dy = final(out)@[j].y - ci.center.y;
                            &&& final(out)@[j].z == ci.center.z
                            &&& dx * dx + dy * dy <= ci.radius * ci.radius
                            &&& ci.radius * ci.radius
                                < dx * dx + dy * dy + 2 * smax(sabs(dx), sabs(dy)) + 1
                        })
                },
                Err(e) => tolerance < 1 && e == Error::InvalidTolerance && final(out)@ == old(out)@,
            },
    {
        if tolerance < 1 {
            return Err(Error::InvalidTolerance);
        }
        match self {
            Curve::Circle(circle) => {
                circle.push_approx(tolerance, out);
                proof {
                    let tt = tolerance as int;
                    let base = old(out)@.len() as int;
                    lemma_circle_count(circle.radius as int, tt);
                    assert(out@.len() == base + circle_count(circle.radius as int, tt));
                    assert forall|j: int| base <= j < out@.len() implies {
                        let dx = (#[trigger] out@[j]).x - circle.center.x;
                        let dy = out@[j].y - circle.center.y;
                        &&& out@[j].z == circle.center.z
                        &&& dx * dx + dy * dy <= circle.radius * circle.radius
                        &&& circle.radius * circle.radius
                            < dx * dx + dy * dy + 2 * smax(sabs(dx), sabs(dy)) + 1
                    } by {
                        lemma_circle_off_bounded(circle.radius as int, tt, j - base);
                        lemma_circle_samples_near_circle(circle.radius as int, tt, j - base);
                        assert(out@[j] == circle_pt(*circle, tt, j - base));
                    }
                }
            },
            Curve::Line(line) => {
                out.push(line.a);
                out.push(line.b);
                assert(out@ == old(out)@ + curve_pts(*self, tolerance as int)) by {
                    assert_seqs_equal!(out@, old(out)@ + curve_pts(*self, tolerance as int));
                }
            },
        }
        Ok(())
    }
}

} // verus!

verus! {

/// The closed circle polyline always has at least five samples: four
/// quadrant starts and the closing point.
pub proof fn lemma_circle_count(r: int, t: int)
    requires
        r >= 1,
        t >= 1,
    ensures
        circle_count(r, t) >= 5,
        oct_steps(r, t) >= 0,
{
    lemma_sqrt_exists(r * r / 2);
    assert(r * r / 2 >= 0) by (nonlinear_arith)
        requires r >= 1;
    assert(sisqrt(r * r / 2) >= 0);
    assert(step(r, t) >= 1);
    assert(oct_steps(r, t) >= 0) by (nonlinear_arith)
        requires sisqrt(r * r / 2) >= 0 && step(r, t) >= 1
            && oct_steps(r, t) == sisqrt(r * r / 2) / step(r, t);
}

} // verus!

verus! {

/// Runtime test for `rigid_xy`, equal to the specification.
pub fn check_rigid_xy(m: &Affine) -> (r: bool)
    ensures
        r == rigid_xy(*m),
{
    m.xz == 0 && m.yz == 0 && m.zx == 0 && m.zy == 0
        && (m.zz == 1 || m.zz == -1)
        && (((m.xx == 1 || m.xx == -1) && (m.yy == 1 || m.yy == -1) && m.xy == 0 && m.yx == 0)
            || (m.xx == 0 && m.yy == 0 && (m.xy == 1 || m.xy == -1)
                && (m.yx == 1 || m.yx == -1)))
}

} // verus!

use vstd::arithmetic::div_mod::{lemma_div_is_ordered, lemma_div_is_ordered_by_denominator};

verus! {

/// Every circle sample offset stays within the radius in each coordinate.
pub proof fn lemma_circle_off_bounded(r: int, t: int, j: int)
    requires
        1 <= r,
        1 <= t,
        0 <= j < circle_count(r, t),
    ensures
        sabs(circle_off(r, t, j).0) <= r,
        sabs(circle_off(r, t, j).1) <= r,
{
    let d = step(r, t);
    let n = oct_steps(r, t);
    let w = sisqrt(r * r / 2);
    assert(r * r / 2 >= 0) by (nonlinear_arith)
        requires r >= 1;
    lemma_sqrt_exists(r * r / 2);
    lemma_sqrt_exists(r * r);
    assert(is_sqrt(r, r * r)) by (nonlinear_arith)
        requires r >= 0;
    assert(sisqrt(r * r) == r) by (nonlinear_arith)
        requires is_sqrt(sisqrt(r * r), r * r) && is_sqrt(r, r * r);
    assert(w <= r) by (nonlinear_arith)
        requires is_sqrt(w, r * r / 2) && is_sqrt(r, r * r) && r * r / 2 <= r * r;
    lemma_fundamental_div_mod(w, d);
    assert(n * d <= w) by (nonlinear_arith)
        requires w == d * n + (w % d) && w % d >= 0;
    let ql = quadrant_len(r, t);
    if j < 4 * ql {
        lemma_fundamental_div_mod(j, ql);
        let q = j / ql;
        let wdx = j % ql;
        assert(0 <= wdx < ql && 0 <= q <= 3) by (nonlinear_arith)
            requires j == ql * q + wdx && 0 <= wdx < ql && 0 <= j < 4 * ql && ql >= 1
                && q == j / ql && wdx == j % ql;
        let k = if wdx <= n { wdx } else { 2 * n + 1 - wdx };
        assert(0 <= k <= n);
        let y = k * d;
        assert(0 <= y && y <= n * d) by (nonlinear_arith)
            requires y == k * d && 0 <= k <= n && d >= 1;
        assert(y <= w && w <= r);
        assert(y * y <= r * r) by (nonlinear_arith)
            requires 0 <= y <= r;
        lemma_sqrt_exists(r * r - y * y);
        let x = sisqrt(r * r - y * y);
        assert(0 <= x <= r) by (nonlinear_arith)
            requires is_sqrt(x, r * r - y * y)
                && is_sqrt(r, r * r) && r * r - y * y <= r * r && 0 <= r * r - y * y;
    }
}

/// Every circle sample lies on the circle to within one coordinate unit:
/// the sample is never outside the circle, and pushing its largest
/// coordinate one unit further would leave the circle.
pub proof fn lemma_circle_samples_near_circle(r: int, t: int, j: int)
    requires
        1 <= r,
        1 <= t,
        0 <= j < circle_count(r, t),
    ensures
        ({
            let (a, b) = circle_off(r, t, j);
            &&& a * a + b * b <= r * r
            &&& r * r < a * a + b * b + 2 * smax(sabs(a), sabs(b)) + 1
        }),
{
    let d = step(r, t);
    let n = oct_steps(r, t);
    let w = sisqrt(r * r / 2);
    assert(r * r / 2 >= 0) by (nonlinear_arith)
        requires r >= 1;
    lemma_sqrt_exists(r * r / 2);
    lemma_sqrt_exists(r * r);
    assert(is_sqrt(r, r * r)) by (nonlinear_arith)
        requires r >= 0;
    assert(sisqrt(r * r) == r) by (nonlinear_arith)
        requires is_sqrt(sisqrt(r * r), r * r) && is_sqrt(r, r * r);
    lemma_fundamental_div_mod(w, d);
    assert(n * d <= w) by (nonlinear_arith)
        requires w == d * n + (w % d) && w % d >= 0;
    let ql = quadrant_len(r, t);
    if j < 4 * ql {
        lemma_fundamental_div_mod(j, ql);
        let q = j / ql;
        let wdx = j % ql;
        assert(0 <= wdx < ql && 0 <= q <= 3) by (nonlinear_arith)
            requires j == ql * q + wdx && 0 <= wdx < ql && 0 <= j < 4 * ql && ql >= 1
                && q == j / ql && wdx == j % ql;
        let k = if wdx <= n { wdx } else { 2 * n + 1 - wdx };
        assert(0 <= k <= n);
        let y = k * d;
        assert(0 <= y && y <= w) by (nonlinear_arith)
            requires y == k * d && 0 <= k <= n && d >= 1 && n * d <= w;
        assert(y * y <= w * w) by (nonlinear_arith)
            requires 0 <= y <= w;
        assert(w * w <= r * r / 2) by {
            assert(is_sqrt(w, r * r / 2));
        }
        lemma_sqrt_exists(r * r - y * y);
        let x = sisqrt(r * r - y * y);
        assert(r * r / 2 + r * r / 2 <= r * r) by (nonlinear_arith);
        assert(y * y <= r * r - y * y) by (nonlinear_arith)
            requires y * y <= r * r / 2 && r * r / 2 + r * r / 2 <= r * r;
        assert(y <= x) by (nonlinear_arith)
            requires is_sqrt(x, r * r - y * y) && y * y <= r * r - y * y && y >= 0;
        assert(x * x + y * y <= r * r && r * r < x * x + y * y + 2 * x + 1) by (nonlinear_arith)
            requires is_sqrt(x, r * r - y * y);
        assert(x <= r) by (nonlinear_arith)
            requires is_sqrt(x, r * r - y * y)
                && is_sqrt(r, r * r) && r * r - y * y <= r * r && 0 <= r * r - y * y;
        let (a, b) = circle_off(r, t, j);
        let aa = sabs(a);
        let bb = sabs(b);
        assert((aa == x && bb == y) || (aa == y && bb == x));
        assert(a * a == aa * aa) by (nonlinear_arith)
            requires a == aa || a == -aa;
        assert(b * b == bb * bb) by (nonlinear_arith)
            requires b == bb || b == -bb;
        assert(smax(aa, bb) == x);
    } else {
        assert(circle_off(r, t, j) == (r, 0int));
        assert(r * r < r * r + 2 * r + 1) by (nonlinear_arith)
            requires r >= 1;
    }
}

/// Shrinking the tolerance never thins the circle polyline: at a fixed
/// radius, a smaller tolerance gives at least as many samples. (The count
/// also grows with the radius in trend, but not monotonically: the integer
/// step can make it dip slightly between nearby radii.)
pub proof fn lemma_circle_count_tolerance_monotone(r: int, t0: int, t1: int)
    requires
        1 <= r,
        1 <= t1 <= t0,
    ensures
        circle_count(r, t1) >= circle_count(r, t0),
{
    let st1 = step_tol(r, t1);
    let st0 = step_tol(r, t0);
    assert(1 <= st1 && st1 <= st0);
    assert(r * st1 <= r * st0 && 0 <= r * st1) by (nonlinear_arith)
        requires 1 <= st1 <= st0 && r >= 1;
    lemma_div_is_ordered(r * st1, r * st0, 2);
    lemma_sqrt_le(r * st1 / 2, r * st0 / 2);
    let d1 = step(r, t1);
    let d0 = step(r, t0);
    lemma_sqrt_exists(r * st1 / 2);
    assert(1 <= d1 && d1 <= d0);
    assert(r * r / 2 >= 0) by (nonlinear_arith)
        requires r >= 1;
    lemma_sqrt_exists(r * r / 2);
    let w = sisqrt(r * r / 2);
    assert(w >= 0);
    lemma_div_is_ordered_by_denominator(w, d1, d0);
    assert(oct_steps(r, t1) >= oct_steps(r, t0));
}

} // verus!
