//! The shape tree and its evaluation.
//!
//! A shape tree is built once from planar profiles, transforms, sweeps and
//! boolean nodes, each node exclusively owning its operands, and is then
//! evaluated — possibly many times, at different tolerances — into bounding
//! volumes, faces, edges and vertices. Evaluation is a pure function of the
//! tree and the tolerance; nothing is cached.

use vstd::prelude::*;
use vstd::assert_seqs_equal;

use crate::Error;
use crate::math::{Aabb, Affine, Point, TRANS_MAX, sapply, sdet, apply_fits};
use crate::curves::{Circle, Curve, Line, circle_pts, rigid_xy, smax, smin};
use crate::topology::{
    Edge, Edges, Face, Faces, Segment, Triangle, edges_segs, face_tris, tri_fits, tri_xform,
};

verus! {

/// A planar profile: a simple polygon in the `z = 0` plane, its points in
/// counter-clockwise order.
///
/// The polygon's single boundary loop makes it a safe sweep profile; its
/// face is the triangle fan from its first point, which is the profile's
/// area exactly when the polygon is convex (the intended use).
#[derive(Clone, Debug, PartialEq, Eq)]
pub struct Sketch {
    /// The profile points, in the `z = 0` plane.
    pub points: Vec<Point>,
}

impl Sketch {
    /// At least a triangle, coordinates within the constructor's bounds,
    /// and every point in the `z = 0` plane.
    pub open spec fn wf(self) -> bool {
        &&& self.points@.len() >= 3
        &&& forall|i: int| 0 <= i < self.points@.len()
            ==> -TRANS_MAX <= (#[trigger] self.points@[i]).x <= TRANS_MAX
                && -TRANS_MAX <= self.points@[i].y <= TRANS_MAX
                && self.points@[i].z == 0
    }

    /// The profile's points, as a sequence in the `z = 0` plane.
    pub open spec fn view(self) -> Seq<Point> {
        self.points@
    }

    /// Builds a profile from planar points, rejecting fewer than three
    /// points as degenerate and out-of-range coordinates as overflow.
    pub fn from_points(points: &Vec<(i64, i64)>) -> (r: Result<Sketch, Error>)
        ensures
            match r {
                Ok(s) => {
                    &&& s.wf()
                    &&& s@.len() == points@.len()
                    &&& forall|i: int| 0 <= i < points@.len()
                        ==> #[trigger] s@[i] == (Point {
                            x: points@[i].0,
                            y: points@[i].1,
                            z: 0,
                        })
                },
                Err(e) => {
                    &&& (e == Error::DegenerateGeometry <==> points@.len() < 3)
                    &&& e == Error::DegenerateGeometry || e == Error::NumericOverflow
                    &&& e == Error::NumericOverflow ==> !(forall|i: int| 0 <= i < points@.len()
                        ==> -TRANS_MAX <= (#[trigger] points@[i]).0 <= TRANS_MAX
                            && -TRANS_MAX <= points@[i].1 <= TRANS_MAX)
                },
            },
    {
        if points.len() < 3 {
            return Err(Error::DegenerateGeometry);
        }
        let mut v: Vec<Point> = Vec::new();
        let mut i: usize = 0;
        while i < points.len()
            invariant
                points@.len() >= 3,
                i <= points@.len(),
                v@.len() == i,
                forall|k: int| 0 <= k < i
                    ==> #[trigger] v@[k] == (Point { x: points@[k].0, y: points@[k].1, z: 0 })
                        && -TRANS_MAX <= points@[k].0 <= TRANS_MAX
                        && -TRANS_MAX <= points@[k].1 <= TRANS_MAX,
            decreases points@.len() - i,
        {
            let (x, y) = points[i];
            if x < -TRANS_MAX || x > TRANS_MAX || y < -TRANS_MAX || y > TRANS_MAX {
                return Err(Error::NumericOverflow);
            }
            v.push(Point { x, y, z: 0 });
            i = i + 1;
        }
        Ok(Sketch { points: v })
    }
}

/// The triangle fan of a point loop, from its first point.
pub open spec fn fan_tris(pts: Seq<Point>) -> Seq<Triangle> {
    Seq::new((pts.len() - 2) as nat, |i: int| Triangle { a: pts[0], b: pts[i + 1], c: pts[i + 2] })
}

/// The boundary edges of a point loop: one line edge per consecutive pair,
/// the last point joined back to the first.
pub open spec fn loop_edges(pts: Seq<Point>) -> Seq<Edge> {
    Seq::new(pts.len(), |i: int| Edge {
        curve: Curve::Line(Line {
            a: pts[i],
            b: pts[if i + 1 == pts.len() { 0int } else { i + 1 }],
        }),
    })
}

/// A two-dimensional shape: a planar profile for sweeps.
#[derive(Clone, Debug, PartialEq, Eq)]
pub enum Shape2d {
    /// A circular disc.
    Circle(Circle),
    /// A polygonal profile.
    Sketch(Sketch),
}

impl Shape2d {
    /// The operand bounds under which evaluation stays in range.
    pub open spec fn wf(self) -> bool {
        match self {
            Shape2d::Circle(c) => c.wf(),
            Shape2d::Sketch(s) => s.wf(),
        }
    }
}

/// The triangles of the single face of a profile at tolerance `t`: the fan
/// of the sketch points, or the fan of the circle's sample loop (without
/// its closing point).
pub open spec fn s2_face_tris(s: Shape2d, t: int) -> Seq<Triangle> {
    match s {
        Shape2d::Sketch(sk) => fan_tris(sk@),
        Shape2d::Circle(c) => fan_tris(circle_pts(c, t).drop_last()),
    }
}

/// The boundary edges of a profile: the sketch's loop of line edges, or
/// the one closed circle edge.
pub open spec fn s2_edges(s: Shape2d) -> Seq<Edge> {
    match s {
        Shape2d::Sketch(sk) => loop_edges(sk@),
        Shape2d::Circle(c) => seq![Edge { curve: Curve::Circle(c) }],
    }
}

/// The vertices of a profile: the sketch's points; a circle has none.
pub open spec fn s2_vertices(s: Shape2d) -> Seq<Point> {
    match s {
        Shape2d::Sketch(sk) => sk@,
        Shape2d::Circle(c) => Seq::empty(),
    }
}

/// The smallest `x` coordinate of a nonempty point sequence.
pub open spec fn min_x(pts: Seq<Point>) -> int
    decreases pts.len(),
{
    if pts.len() <= 1 { pts[0].x as int } else { smin(min_x(pts.drop_last()), pts.last().x as int) }
}

/// The largest `x` coordinate of a nonempty point sequence.
pub open spec fn max_x(pts: Seq<Point>) -> int
    decreases pts.len(),
{
    if pts.len() <= 1 { pts[0].x as int } else { smax(max_x(pts.drop_last()), pts.last().x as int) }
}

/// The smallest `y` coordinate of a nonempty point sequence.
pub open spec fn min_y(pts: Seq<Point>) -> int
    decreases pts.len(),
{
    if pts.len() <= 1 { pts[0].y as int } else { smin(min_y(pts.drop_last()), pts.last().y as int) }
}

/// The largest `y` coordinate of a nonempty point sequence.
pub open spec fn max_y(pts: Seq<Point>) -> int
    decreases pts.len(),
{
    if pts.len() <= 1 { pts[0].y as int } else { smax(max_y(pts.drop_last()), pts.last().y as int) }
}

/// Every point of a nonempty sequence lies within its coordinate extremes.
pub proof fn lemma_minmax_bounds(pts: Seq<Point>, i: int)
    requires
        0 <= i < pts.len(),
    ensures
        min_x(pts) <= pts[i].x <= max_x(pts),
        min_y(pts) <= pts[i].y <= max_y(pts),
    decreases pts.len(),
{
    if pts.len() > 1 {
        if i < pts.len() - 1 {
            lemma_minmax_bounds(pts.drop_last(), i);
        }
    }
}

/// The bounding volume of a profile.
pub open spec fn s2_bv(s: Shape2d) -> Aabb {
    match s {
        Shape2d::Sketch(sk) => Aabb {
            mins: Point { x: min_x(sk@) as i64, y: min_y(sk@) as i64, z: 0 },
            maxs: Point { x: max_x(sk@) as i64, y: max_y(sk@) as i64, z: 0 },
        },
        Shape2d::Circle(c) => Aabb {
            mins: Point {
                x: (c.center.x - c.radius) as i64,
                y: (c.center.y - c.radius) as i64,
                z: c.center.z,
            },
            maxs: Point {
                x: (c.center.x + c.radius) as i64,
                y: (c.center.y + c.radius) as i64,
                z: c.center.z,
            },
        },
    }
}

fn fan(pts: &Vec<Point>, count: usize) -> (r: Vec<Triangle>)
    requires
        3 <= count <= pts@.len(),
    ensures
        r@ == fan_tris(pts@.take(count as int)),
{
    let mut v: Vec<Triangle> = Vec::new();
    let mut i: usize = 0;
    while i < count - 2
        invariant
            3 <= count <= pts@.len(),
            i <= count - 2,
            v@.len() == i,
            forall|k: int| 0 <= k < i
                ==> #[trigger] v@[k] == (Triangle { a: pts@[0], b: pts@[k + 1], c: pts@[k + 2] }),
        decreases count - 2 - i,
    {
        v.push(Triangle { a: pts[0], b: pts[i + 1], c: pts[i + 2] });
        i = i + 1;
    }
    proof {
        assert_seqs_equal!(v@, fan_tris(pts@.take(count as int)));
    }
    v
}

impl Shape2d {
    /// The profile's single face, triangulated at `tolerance`.
    ///
    /// A tolerance below one unit is rejected before any sampling occurs.
    pub fn faces(&self, tolerance: i64) -> (r: Result<Faces, Error>)
        requires
            self.wf(),
        ensures
            match r {
                Ok(f) => {
                    &&& tolerance >= 1
                    &&& f@.len() == 1
                    &&& face_tris(f@[0]) == s2_face_tris(*self, tolerance as int)
                },
                Err(e) => tolerance < 1 && e == Error::InvalidTolerance,
            },
    {
        if tolerance < 1 {
            return Err(Error::InvalidTolerance);
        }
        let tris: Vec<Triangle> = match self {
            Shape2d::Sketch(sk) => {
                let n = sk.points.len();
                let f = fan(&sk.points, n);
                proof {
                    assert(sk.points@.take(sk.points@.len() as int) == sk.points@);
                }
                f
            },
            Shape2d::Circle(c) => {
                let mut pts: Vec<Point> = Vec::new();
                let res = Curve::Circle(*c).approx_vertices(tolerance, &mut pts);
                proof {
                    assert(res is Ok);
                    assert(pts@ == circle_pts(*c, tolerance as int));
                    crate::curves::lemma_circle_count(c.radius as int, tolerance as int);
                    assert(pts@.len() >= 5);
                }
                let n = pts.len();
                let f = fan(&pts, n - 1);
                proof {
                    assert(pts@.take(pts@.len() - 1) == pts@.drop_last());
                }
                f
            },
        };
        let mut faces: Vec<Face> = Vec::new();
        faces.push(Face::Triangles(tris));
        Ok(Faces(faces))
    }

    /// The profile's boundary edges.
    pub fn edges(&self) -> (r: Edges)
        requires
            self.wf(),
        ensures
            r@ == s2_edges(*self),
            r.wf(),
    {
        match self {
            Shape2d::Sketch(sk) => {
                let n = sk.points.len();
                let mut v: Vec<Edge> = Vec::new();
                let mut i: usize = 0;
                while i < n
                    invariant
                        n == sk.points@.len(),
                        n >= 3,
                        i <= n,
                        v@.len() == i,
                        forall|k: int| 0 <= k < i
                            ==> #[trigger] v@[k] == (Edge {
                                curve: Curve::Line(Line {
                                    a: sk.points@[k],
                                    b: sk.points@[
                                        if k + 1 == sk.points@.len() { 0int } else { k + 1 }
                                    ],
                                }),
                            }),
                    decreases n - i,
                {
                    let next = if i + 1 == n { 0 } else { i + 1 };
                    v.push(Edge {
                        curve: Curve::Line(Line { a: sk.points[i], b: sk.points[next] }),
                    });
                    i = i + 1;
                }
                proof {
                    assert_seqs_equal!(v@, s2_edges(*self));
                }
                Edges(v)
            },
            Shape2d::Circle(c) => {
                let mut v: Vec<Edge> = Vec::new();
                v.push(Edge { curve: Curve::Circle(*c) });
                proof {
                    assert_seqs_equal!(v@, s2_edges(*self));
                }
                Edges(v)
            },
        }
    }

    /// The profile's vertices.
    pub fn vertices(&self) -> (r: Vec<Point>)
        requires
            self.wf(),
        ensures
            r@ == s2_vertices(*self),
    {
        match self {
            Shape2d::Sketch(sk) => {
                let mut v: Vec<Point> = Vec::new();
                let mut i: usize = 0;
                while i < sk.points.len()
                    invariant
                        i <= sk.points@.len(),
                        v@ == sk.points@.take(i as int),
                    decreases sk.points@.len() - i,
                {
                    v.push(sk.points[i]);
                    proof {
                        assert_seqs_equal!(v@, sk.points@.take(i as int + 1));
                    }
                    i = i + 1;
                }
                proof {
                    assert(sk.points@.take(sk.points@.len() as int) == sk.points@);
                }
                v
            },
            Shape2d::Circle(_) => Vec::new(),
        }
    }

    /// The profile's bounding volume: the tight axis-aligned box of its
    /// points (or of its circle), in the profile's own plane.
    pub fn bounding_volume(&self) -> (r: Aabb)
        requires
            self.wf(),
        ensures
            r == s2_bv(*self),
            r.wf(),
    {
        match self {
            Shape2d::Sketch(sk) => {
                let mut lo_x: i64 = sk.points[0].x;
                let mut hi_x: i64 = sk.points[0].x;
                let mut lo_y: i64 = sk.points[0].y;
                let mut hi_y: i64 = sk.points[0].y;
                let mut i: usize = 1;
                while i < sk.points.len()
                    invariant
                        sk.wf(),
                        1 <= i <= sk.points@.len(),
                        lo_x as int == min_x(sk.points@.take(i as int)),
                        hi_x as int == max_x(sk.points@.take(i as int)),
                        lo_y as int == min_y(sk.points@.take(i as int)),
                        hi_y as int == max_y(sk.points@.take(i as int)),
                    decreases sk.points@.len() - i,
                {
                    proof {
                        assert(sk.points@.take(i as int + 1).drop_last()
                            == sk.points@.take(i as int));
                        assert(sk.points@.take(i as int + 1).last() == sk.points@[i as int]);
                    }
                    let p = sk.points[i];
                    if p.x < lo_x { lo_x = p.x; }
                    if p.x > hi_x { hi_x = p.x; }
                    if p.y < lo_y { lo_y = p.y; }
                    if p.y > hi_y { hi_y = p.y; }
                    i = i + 1;
                }
                proof {
                    assert(sk.points@.take(sk.points@.len() as int) == sk.points@);
                }
                Aabb {
                    mins: Point { x: lo_x, y: lo_y, z: 0 },
                    maxs: Point { x: hi_x, y: hi_y, z: 0 },
                }
            },
            Shape2d::Circle(c) => Aabb {
                mins: Point { x: c.center.x - c.radius, y: c.center.y - c.radius, z: c.center.z },
                maxs: Point { x: c.center.x + c.radius, y: c.center.y + c.radius, z: c.center.z },
            },
        }
    }
}

} // verus!

use vstd::seq_lib::*;
use crate::math::{
    box_merge, corners_box, point_box, translation_spec,
};
use crate::topology::{face_fits, face_xform, tri_flip, tris_fit};
use crate::curves::{curve_xform, curve_xform_ok};

verus! {

/// The point `p` raised by `len` along the sweep axis.
pub open spec fn tz_pt(p: Point, len: i64) -> Point {
    Point { x: p.x, y: p.y, z: (p.z + len) as i64 }
}

/// Whether raising `p` by `len` stays in coordinate range.
pub open spec fn tz_fits(p: Point, len: i64) -> bool {
    i64::MIN <= p.z + len <= i64::MAX
}

/// Whether every segment endpoint can be raised by `len`.
pub open spec fn segs_tz_fit(segs: Seq<Segment>, len: i64) -> bool {
    forall|i: int| 0 <= i < segs.len()
        ==> tz_fits((#[trigger] segs[i]).a, len) && tz_fits(segs[i].b, len)
}

/// The side-wall triangles of a sweep: each boundary segment `(a, b)` and
/// its raised copy bound a quad, split into the two triangles
/// `(a, b, b')` and `(a, b', a')`.
pub open spec fn side_tris(segs: Seq<Segment>, len: i64) -> Seq<Triangle> {
    Seq::new((2 * segs.len()) as nat, |i: int|
        if i % 2 == 0 {
            Triangle { a: segs[i / 2].a, b: segs[i / 2].b, c: tz_pt(segs[i / 2].b, len) }
        } else {
            Triangle { a: segs[i / 2].a, b: tz_pt(segs[i / 2].b, len), c: tz_pt(segs[i / 2].a, len) }
        })
}

/// A sweep: the extrusion of a planar profile along the positive `z` axis
/// by a given length.
///
/// The profile is expected to lie at `z = 0`; a profile elsewhere gives an
/// incorrect bounding volume (a documented limitation, not silently
/// corrected). Because a profile always has a single boundary loop, every
/// sweep side wall is a single face.
#[derive(Clone, Debug, PartialEq, Eq)]
pub struct Sweep {
    /// The profile being extruded.
    pub shape: Shape2d,
    /// The extrusion length along `z`, in coordinate units.
    pub length: i64,
}

impl Sweep {
    /// A well-formed profile and a positive, bounded length.
    pub open spec fn wf(self) -> bool {
        self.shape.wf() && 1 <= self.length <= TRANS_MAX
    }

    /// Builds a sweep, rejecting a non-positive length as degenerate (a
    /// zero-length sweep has no volume) and an oversized one as overflow.
    pub fn new(shape: Shape2d, length: i64) -> (r: Result<Sweep, Error>)
        requires
            shape.wf(),
        ensures
            match r {
                Ok(sw) => sw.wf() && sw.shape == shape && sw.length == length,
                Err(e) => {
                    &&& e == Error::DegenerateGeometry || e == Error::NumericOverflow
                    &&& (e == Error::DegenerateGeometry <==> length < 1)
                    &&& (e == Error::NumericOverflow <==> length > TRANS_MAX)
                },
            },
    {
        if length < 1 {
            Err(Error::DegenerateGeometry)
        } else if length > TRANS_MAX {
            Err(Error::NumericOverflow)
        } else {
            Ok(Sweep { shape, length })
        }
    }
}

/// A rigid or affine transform applied to an inner shape.
#[derive(Debug)]
pub struct Transform {
    /// The shape being transformed.
    pub shape: Shape3d,
    /// The transform to apply.
    pub matrix: Affine,
}

/// The boolean difference of two shapes: `a` minus `b`.
#[derive(Debug)]
pub struct Difference {
    /// The shape material is removed from.
    pub a: Shape3d,
    /// The shape being removed.
    pub b: Shape3d,
}

/// The boolean union of two shapes.
#[derive(Debug)]
pub struct Union {
    /// The first operand.
    pub a: Shape3d,
    /// The second operand.
    pub b: Shape3d,
}

/// A node of the shape tree. Every node exclusively owns its operands:
/// the tree is a tree, with no sharing and no cycles, and is immutable
/// once constructed.
#[derive(Debug)]
pub enum Shape3d {
    /// A boolean difference.
    Difference(Box<Difference>),
    /// A linear sweep of a planar profile.
    Sweep(Box<Sweep>),
    /// A transformed shape.
    Transform(Box<Transform>),
    /// A boolean union.
    Union(Box<Union>),
}

impl Shape3d {
    /// The operand bounds under which evaluation stays in range.
    pub open spec fn wf(self) -> bool
        decreases self,
    {
        match self {
            Shape3d::Difference(d) => d.a.wf() && d.b.wf(),
            Shape3d::Sweep(sw) => sw.wf(),
            Shape3d::Transform(tr) => tr.shape.wf() && tr.matrix.wf(),
            Shape3d::Union(u) => u.a.wf() && u.b.wf(),
        }
    }
}

/// The faces of a sweep at tolerance `t`, as triangle lists: the profile's
/// own face with its winding flipped in place (the bottom cap, so its
/// normal points down and out), the profile's face raised by the length,
/// and the single side-wall face; or the error evaluation stops with.
pub open spec fn sweep_faces_spec(sw: Sweep, t: int) -> Result<Seq<Seq<Triangle>>, Error> {
    if t < 1 {
        Err(Error::InvalidTolerance)
    } else {
        let inner = s2_face_tris(sw.shape, t);
        let tz = translation_spec(0, 0, sw.length);
        if !tris_fit(tz, inner) {
            Err(Error::NumericOverflow)
        } else {
            let segs = edges_segs(s2_edges(sw.shape), t);
            if !segs_tz_fit(segs, sw.length) {
                Err(Error::NumericOverflow)
            } else {
                Ok(seq![
                    inner.map_values(|x: Triangle| tri_flip(x)),
                    inner.map_values(|x: Triangle| tri_xform(tz, x)),
                    side_tris(segs, sw.length),
                ])
            }
        }
    }
}

/// The faces of a shape at tolerance `t`, as triangle lists, or the error
/// evaluation stops with. Boolean faces require a face-clipping stage the
/// kernel does not have; they are a capability gap, surfaced as
/// `UnsupportedOperation` rather than silently returning nothing.
pub open spec fn s3_faces(s: Shape3d, t: int) -> Result<Seq<Seq<Triangle>>, Error>
    decreases s,
{
    match s {
        Shape3d::Sweep(sw) => sweep_faces_spec(*sw, t),
        Shape3d::Transform(tr) => {
            let m = tr.matrix;
            match s3_faces(tr.shape, t) {
                Err(e) => Err(e),
                Ok(fss) => if sdet(m) == 0 {
                    Err(Error::DegenerateGeometry)
                } else if !(forall|i: int| 0 <= i < fss.len() ==> tris_fit(m, #[trigger] fss[i])) {
                    Err(Error::NumericOverflow)
                } else {
                    Ok(Seq::new(fss.len(), |i: int|
                        fss[i].map_values(|x: Triangle| tri_xform(m, x))))
                },
            }
        },
        Shape3d::Difference(_) => if t < 1 {
            Err(Error::InvalidTolerance)
        } else {
            Err(Error::UnsupportedOperation)
        },
        Shape3d::Union(_) => if t < 1 {
            Err(Error::InvalidTolerance)
        } else {
            Err(Error::UnsupportedOperation)
        },
    }
}

/// The bounding volume of a shape: a sweep takes its profile's box with
/// the upper `z` bound set to the length; a transform takes the box of the
/// eight transformed corners of its operand's box; a difference takes its
/// first operand's box (subtraction never enlarges a shape); a union takes
/// the smallest box containing both operands' boxes.
pub open spec fn s3_bv(s: Shape3d) -> Result<Aabb, Error>
    decreases s,
{
    match s {
        Shape3d::Sweep(sw) => {
            let b = s2_bv(sw.shape);
            Ok(Aabb { mins: b.mins, maxs: Point { x: b.maxs.x, y: b.maxs.y, z: sw.length } })
        },
        Shape3d::Transform(tr) => match s3_bv(tr.shape) {
            Err(e) => Err(e),
            Ok(bb) => if !(forall|i: int| 0 <= i < 8
                ==> apply_fits(tr.matrix, #[trigger] bb.spec_corner(i))) {
                Err(Error::NumericOverflow)
            } else {
                Ok(corners_box(tr.matrix, bb, 8))
            },
        },
        Shape3d::Difference(d) => s3_bv(d.a),
        Shape3d::Union(u) => match (s3_bv(u.a), s3_bv(u.b)) {
            (Ok(ba), Ok(bb)) => Ok(box_merge(ba, bb)),
            (Err(e), _) => Err(e),
            (_, Err(e)) => Err(e),
        },
    }
}

impl Shape3d {
    /// The shape's faces, triangulated at `tolerance`, exactly as
    /// `s3_faces` states them.
    pub fn faces(&self, tolerance: i64) -> (r: Result<Faces, Error>)
        requires
            self.wf(),
        ensures
            ({
                let sr = s3_faces(*self, tolerance as int);
                &&& (r is Ok <==> sr is Ok)
                &&& (r matches Ok(f) ==> sr matches Ok(fss) && f@.len() == fss.len()
                    && forall|i: int| 0 <= i < fss.len()
                        ==> face_tris(#[trigger] f@[i]) == fss[i])
                &&& (r matches Err(e) ==> sr matches Err(e2) && e == e2)
            }),
        decreases *self,
    {
        match self {
            Shape3d::Sweep(sw) => {
                let inner = match sw.shape.faces(tolerance) {
                    Ok(f) => f,
                    Err(e) => {
                        return Err(e);
                    },
                };
                let ghost tt = tolerance as int;
                let ghost itr = s2_face_tris(sw.shape, tt);
                proof {
                    assert(face_tris(inner@[0]) == itr);
                }
                let bottom = inner.flip_winding();
                let tzm = match Affine::translation(0, 0, sw.length) {
                    Some(m) => m,
                    None => {
                        proof { assert(false); }
                        return Err(Error::NumericOverflow);
                    },
                };
                let top = match inner.transform(&tzm) {
                    Ok(f) => f,
                    Err(e) => {
                        proof {
                            assert(e == Error::NumericOverflow);
                            let j = choose|j: int| 0 <= j < inner@.len()
                                && !face_fits(translation_spec(0, 0, sw.length), #[trigger] inner@[j]);
                            assert(j == 0);
                            assert(!tris_fit(translation_spec(0, 0, sw.length), itr));
                        }
                        return Err(e);
                    },
                };
                proof {
                    assert(face_fits(translation_spec(0, 0, sw.length), inner@[0]));
                    assert(tris_fit(translation_spec(0, 0, sw.length), itr));
                }
                let edges = sw.shape.edges();
                let mut segs: Vec<Segment> = Vec::new();
                match edges.approx_segments(tolerance, &mut segs) {
                    Ok(()) => {},
                    Err(_) => {
                        proof { assert(false); }
                        return Err(Error::InvalidTolerance);
                    },
                }
                let mut side: Vec<Triangle> = Vec::new();
                let mut i: usize = 0;
                #[verifier::loop_isolation(false)]
                while i < segs.len()
                    invariant
                        sw.wf(),
                        i <= segs@.len(),
                        side@.len() == 2 * i,
                        forall|k: int| 0 <= k < i
                            ==> tz_fits((#[trigger] segs@[k]).a, sw.length)
                                && tz_fits(segs@[k].b, sw.length),
                        forall|k: int| 0 <= k < 2 * i
                            ==> #[trigger] side@[k] == side_tris(segs@, sw.length)[k],
                    decreases segs@.len() - i,
                {
                    let sa = segs[i].a;
                    let sb = segs[i].b;
                    if sa.z > i64::MAX - sw.length || sb.z > i64::MAX - sw.length {
                        proof {
                            assert(!segs_tz_fit(segs@, sw.length)) by {
                                assert((i as int) < segs@.len()
                                    && !(tz_fits(segs@[i as int].a, sw.length)
                                        && tz_fits(segs@[i as int].b, sw.length)));
                            }
                            assert(segs@ == edges_segs(s2_edges(sw.shape), tt));
                        }
                        return Err(Error::NumericOverflow);
                    }
                    side.push(Triangle {
                        a: sa,
                        b: sb,
                        c: Point { x: sb.x, y: sb.y, z: sb.z + sw.length },
                    });
                    side.push(Triangle {
                        a: sa,
                        b: Point { x: sb.x, y: sb.y, z: sb.z + sw.length },
                        c: Point { x: sa.x, y: sa.y, z: sa.z + sw.length },
                    });
                    i = i + 1;
                }
                let Faces(mut fv) = bottom;
                let Faces(mut tv) = top;
                fv.append(&mut tv);
                fv.push(Face::Triangles(side));
                proof {
                    assert(segs@ == edges_segs(s2_edges(sw.shape), tt));
                    assert(segs_tz_fit(segs@, sw.length));
                    assert(face_tris(fv@[0]) == itr.map_values(
                        |x: Triangle| tri_flip(x)));
                    assert(face_tris(fv@[1]) == itr.map_values(
                        |x: Triangle| tri_xform(translation_spec(0, 0, sw.length), x)));
                    assert_seqs_equal!(side@, side_tris(segs@, sw.length));
                }
                Ok(Faces(fv))
            },
            Shape3d::Transform(tr) => {
                let inner = match tr.shape.faces(tolerance) {
                    Ok(f) => f,
                    Err(e) => {
                        return Err(e);
                    },
                };
                let ghost fss = s3_faces(tr.shape, tolerance as int)->Ok_0;
                match inner.transform(&tr.matrix) {
                    Ok(f) => {
                        proof {
                            assert forall|i: int| 0 <= i < fss.len()
                                implies tris_fit(tr.matrix, #[trigger] fss[i]) by {
                                assert(face_tris(inner@[i]) == fss[i]);
                                assert(face_fits(tr.matrix, inner@[i]));
                            }
                            assert forall|i: int| 0 <= i < fss.len()
                                implies face_tris(#[trigger] f@[i])
                                    == s3_faces(*self, tolerance as int)->Ok_0[i] by {
                                assert(face_tris(f@[i]) == face_xform(tr.matrix, inner@[i]));
                                assert(face_tris(inner@[i]) == fss[i]);
                            }
                        }
                        Ok(f)
                    },
                    Err(e) => {
                        proof {
                            if e == Error::NumericOverflow {
                                let j = choose|j: int| 0 <= j < inner@.len()
                                    && !face_fits(tr.matrix, #[trigger] inner@[j]);
                                assert(face_tris(inner@[j]) == fss[j]);
                                assert(!tris_fit(tr.matrix, fss[j]));
                            }
                        }
                        Err(e)
                    },
                }
            },
            Shape3d::Difference(_) => {
                if tolerance < 1 {
                    Err(Error::InvalidTolerance)
                } else {
                    Err(Error::UnsupportedOperation)
                }
            },
            Shape3d::Union(_) => {
                if tolerance < 1 {
                    Err(Error::InvalidTolerance)
                } else {
                    Err(Error::UnsupportedOperation)
                }
            },
        }
    }

    /// The shape's bounding volume, exactly as `s3_bv` states it: a box
    /// containing every point the shape can produce, recomputed on every
    /// call, never cached.
    pub fn bounding_volume(&self) -> (r: Result<Aabb, Error>)
        requires
            self.wf(),
        ensures
            r == s3_bv(*self),
        decreases *self,
    {
        match self {
            Shape3d::Sweep(sw) => {
                let b = sw.shape.bounding_volume();
                Ok(Aabb {
                    mins: b.mins,
                    maxs: Point { x: b.maxs.x, y: b.maxs.y, z: sw.length },
                })
            },
            Shape3d::Transform(tr) => {
                let bb = match tr.shape.bounding_volume() {
                    Ok(b) => b,
                    Err(e) => {
                        return Err(e);
                    },
                };
                let first = match tr.matrix.apply(bb.corner(0)) {
                    Some(q) => q,
                    None => {
                        proof {
                            assert(!(forall|k: int| 0 <= k < 8
                                ==> apply_fits(tr.matrix, #[trigger] bb.spec_corner(k)))) by {
                                assert(!apply_fits(tr.matrix, bb.spec_corner(0)));
                            }
                        }
                        return Err(Error::NumericOverflow);
                    },
                };
                let mut acc = Aabb { mins: first, maxs: first };
                let mut i: usize = 1;
                #[verifier::loop_isolation(false)]
                while i < 8
                    invariant
                        tr.matrix.wf(),
                        1 <= i <= 8,
                        acc == corners_box(tr.matrix, bb, i as int),
                        forall|k: int| 0 <= k < i
                            ==> apply_fits(tr.matrix, #[trigger] bb.spec_corner(k)),
                    decreases 8 - i,
                {
                    match tr.matrix.apply(bb.corner(i)) {
                        Some(q) => {
                            acc = acc.merged(&Aabb { mins: q, maxs: q });
                        },
                        None => {
                            proof {
                                assert(!(forall|k: int| 0 <= k < 8
                                    ==> apply_fits(tr.matrix, #[trigger] bb.spec_corner(k)))) by {
                                    assert((i as int) < 8
                                        && !apply_fits(tr.matrix, bb.spec_corner(i as int)));
                                }
                            }
                            return Err(Error::NumericOverflow);
                        },
                    }
                    i = i + 1;
                }
                Ok(acc)
            },
            Shape3d::Difference(d) => d.a.bounding_volume(),
            Shape3d::Union(u) => {
                let ba = match u.a.bounding_volume() {
                    Ok(b) => b,
                    Err(e) => {
                        return Err(e);
                    },
                };
                let bb = match u.b.bounding_volume() {
                    Ok(b) => b,
                    Err(e) => {
                        return Err(e);
                    },
                };
                Ok(ba.merged(&bb))
            },
        }
    }
}

} // verus!

verus! {

/// The vertical edges of a sweep: one line per profile vertex, from the
/// vertex to its raised copy.
pub open spec fn vertical_edges(vs: Seq<Point>, len: i64) -> Seq<Edge> {
    Seq::new(vs.len(), |i: int| Edge {
        curve: Curve::Line(Line { a: vs[i], b: tz_pt(vs[i], len) }),
    })
}

/// Whether every edge of a list has a representable image under `m`.
pub open spec fn edges_xform_ok(m: Affine, es: Seq<Edge>) -> bool {
    forall|i: int| 0 <= i < es.len() ==> curve_xform_ok(m, (#[trigger] es[i]).curve)
}

/// The images of a list of edges under `m`.
pub open spec fn edges_xform(m: Affine, es: Seq<Edge>) -> Seq<Edge> {
    es.map_values(|e: Edge| Edge { curve: curve_xform(m, e.curve) })
}

/// The edges of a shape: a sweep has its profile's boundary loop twice —
/// once in place as the bottom loop, once raised by the length — plus one
/// vertical edge per profile vertex; a transform moves its operand's
/// edges. Boolean edges are a capability gap.
pub open spec fn s3_edges(s: Shape3d) -> Result<Seq<Edge>, Error>
    decreases s,
{
    match s {
        Shape3d::Sweep(sw) => {
            let es = s2_edges(sw.shape);
            let tz = translation_spec(0, 0, sw.length);
            if !edges_xform_ok(tz, es) {
                Err(Error::NumericOverflow)
            } else {
                Ok(es + edges_xform(tz, es)
                    + vertical_edges(s2_vertices(sw.shape), sw.length))
            }
        },
        Shape3d::Transform(tr) => match s3_edges(tr.shape) {
            Err(e) => Err(e),
            Ok(es) => if (exists|i: int| 0 <= i < es.len()
                && (#[trigger] es[i]).curve is Circle) && !rigid_xy(tr.matrix) {
                Err(Error::UnsupportedOperation)
            } else if !edges_xform_ok(tr.matrix, es) {
                Err(Error::NumericOverflow)
            } else {
                Ok(edges_xform(tr.matrix, es))
            },
        },
        Shape3d::Difference(_) => Err(Error::UnsupportedOperation),
        Shape3d::Union(_) => Err(Error::UnsupportedOperation),
    }
}

/// The vertices of a shape: a sweep has its profile's vertices twice, once
/// in place at the bottom and once raised by the length; a transform moves
/// its operand's vertices. Boolean vertices are a capability gap.
pub open spec fn s3_vertices(s: Shape3d) -> Result<Seq<Point>, Error>
    decreases s,
{
    match s {
        Shape3d::Sweep(sw) => {
            let vs = s2_vertices(sw.shape);
            Ok(vs + vs.map_values(|p: Point| sapply(translation_spec(0, 0, sw.length), p)))
        },
        Shape3d::Transform(tr) => match s3_vertices(tr.shape) {
            Err(e) => Err(e),
            Ok(vs) => if !(forall|i: int| 0 <= i < vs.len()
                ==> apply_fits(tr.matrix, #[trigger] vs[i])) {
                Err(Error::NumericOverflow)
            } else {
                Ok(vs.map_values(|p: Point| sapply(tr.matrix, p)))
            },
        },
        Shape3d::Difference(_) => Err(Error::UnsupportedOperation),
        Shape3d::Union(_) => Err(Error::UnsupportedOperation),
    }
}

fn apply_all(m: &Affine, pts: &Vec<Point>) -> (r: Option<Vec<Point>>)
    requires
        m.wf(),
    ensures
        match r {
            Some(v) => {
                &&& forall|i: int| 0 <= i < pts@.len() ==> apply_fits(*m, #[trigger] pts@[i])
                &&& v@ == pts@.map_values(|p: Point| sapply(*m, p))
            },
            None => !(forall|i: int| 0 <= i < pts@.len() ==> apply_fits(*m, #[trigger] pts@[i])),
        },
{
    let mut v: Vec<Point> = Vec::new();
    let mut i: usize = 0;
    while i < pts.len()
        invariant
            m.wf(),
            i <= pts@.len(),
            forall|k: int| 0 <= k < i ==> apply_fits(*m, #[trigger] pts@[k]),
            v@ == pts@.take(i as int).map_values(|p: Point| sapply(*m, p)),
        decreases pts@.len() - i,
    {
        match m.apply(pts[i]) {
            Some(q) => {
                v.push(q);
                proof {
                    assert_seqs_equal!(
                        v@,
                        pts@.take(i as int + 1).map_values(|p: Point| sapply(*m, p))
                    );
                }
            },
            None => {
                return None;
            },
        }
        i = i + 1;
    }
    proof {
        assert(pts@.take(pts@.len() as int) == pts@);
    }
    Some(v)
}

impl Shape3d {
    /// The shape's edges, exactly as `s3_edges` states them.
    pub fn edges(&self) -> (r: Result<Edges, Error>)
        requires
            self.wf(),
        ensures
            ({
                let sr = s3_edges(*self);
                &&& (r is Ok <==> sr is Ok)
                &&& (r matches Ok(es) ==> sr matches Ok(ss) && es@ == ss && es.wf())
                &&& (r matches Err(e) ==> sr matches Err(e2) && e == e2)
            }),
        decreases *self,
    {
        match self {
            Shape3d::Sweep(sw) => {
                let inner = sw.shape.edges();
                let tzm = match Affine::translation(0, 0, sw.length) {
                    Some(m) => m,
                    None => {
                        proof { assert(false); }
                        return Err(Error::NumericOverflow);
                    },
                };
                proof {
                    assert(rigid_xy(translation_spec(0, 0, sw.length)));
                }
                let top = match inner.transform(&tzm) {
                    Some(es) => es,
                    None => {
                        return Err(Error::NumericOverflow);
                    },
                };
                let verts = sw.shape.vertices();
                let Edges(mut ev) = inner;
                let Edges(mut tv) = top;
                ev.append(&mut tv);
                let ghost before = ev@;
                let mut i: usize = 0;
                #[verifier::loop_isolation(false)]
                while i < verts.len()
                    invariant
                        i <= verts@.len(),
                        ev@ == before + vertical_edges(verts@, sw.length).take(i as int),
                    decreases verts@.len() - i,
                {
                    let p = verts[i];
                    proof {
                        assert(s2_vertices(sw.shape)[i as int].z == 0);
                    }
                    ev.push(Edge {
                        curve: Curve::Line(Line {
                            a: p,
                            b: Point { x: p.x, y: p.y, z: p.z + sw.length },
                        }),
                    });
                    proof {
                        assert_seqs_equal!(
                            ev@,
                            before + vertical_edges(verts@, sw.length).take(i as int + 1)
                        );
                    }
                    i = i + 1;
                }
                proof {
                    assert(vertical_edges(verts@, sw.length).take(verts@.len() as int)
                        == vertical_edges(verts@, sw.length));
                    assert_seqs_equal!(
                        ev@,
                        s2_edges(sw.shape)
                            + edges_xform(translation_spec(0, 0, sw.length), s2_edges(sw.shape))
                            + vertical_edges(s2_vertices(sw.shape), sw.length)
                    );
                }
                Ok(Edges(ev))
            },
            Shape3d::Transform(tr) => {
                let inner = match tr.shape.edges() {
                    Ok(es) => es,
                    Err(e) => {
                        return Err(e);
                    },
                };
                let mut any_circle = false;
                let mut i: usize = 0;
                #[verifier::loop_isolation(false)]
                while i < inner.0.len()
                    invariant
                        i <= inner.0@.len(),
                        any_circle == exists|k: int| 0 <= k < i
                            && (#[trigger] inner.0@[k]).curve is Circle,
                    decreases inner.0@.len() - i,
                {
                    if let Curve::Circle(_) = inner.0[i].curve {
                        any_circle = true;
                    }
                    i = i + 1;
                }
                if any_circle && !crate::curves::check_rigid_xy(&tr.matrix) {
                    return Err(Error::UnsupportedOperation);
                }
                match inner.transform(&tr.matrix) {
                    Some(es) => {
                        proof {
                            assert_seqs_equal!(es.0@, edges_xform(tr.matrix, inner.0@));
                        }
                        Ok(es)
                    },
                    None => {
                        return Err(Error::NumericOverflow);
                    },
                }
            },
            Shape3d::Difference(_) => Err(Error::UnsupportedOperation),
            Shape3d::Union(_) => Err(Error::UnsupportedOperation),
        }
    }

    /// The shape's vertices, exactly as `s3_vertices` states them.
    pub fn vertices(&self) -> (r: Result<Vec<Point>, Error>)
        requires
            self.wf(),
        ensures
            ({
                let sr = s3_vertices(*self);
                &&& (r is Ok <==> sr is Ok)
                &&& (r matches Ok(vs) ==> sr matches Ok(ss) && vs@ == ss)
                &&& (r matches Err(e) ==> sr matches Err(e2) && e == e2)
            }),
        decreases *self,
    {
        match self {
            Shape3d::Sweep(sw) => {
                let vs = sw.shape.vertices();
                let tzm = match Affine::translation(0, 0, sw.length) {
                    Some(m) => m,
                    None => {
                        proof { assert(false); }
                        return Err(Error::NumericOverflow);
                    },
                };
                proof {
                    assert forall|i: int| 0 <= i < vs@.len()
                        implies apply_fits(translation_spec(0, 0, sw.length), #[trigger] vs@[i]) by {
                        assert(s2_vertices(sw.shape)[i].z == 0);
                    }
                }
                let tops = match apply_all(&tzm, &vs) {
                    Some(v) => v,
                    None => {
                        proof { assert(false); }
                        return Err(Error::NumericOverflow);
                    },
                };
                let mut out = vs;
                let mut tt = tops;
                out.append(&mut tt);
                Ok(out)
            },
            Shape3d::Transform(tr) => {
                let inner = match tr.shape.vertices() {
                    Ok(vs) => vs,
                    Err(e) => {
                        return Err(e);
                    },
                };
                match apply_all(&tr.matrix, &inner) {
                    Some(v) => Ok(v),
                    None => Err(Error::NumericOverflow),
                }
            },
            Shape3d::Difference(_) => Err(Error::UnsupportedOperation),
            Shape3d::Union(_) => Err(Error::UnsupportedOperation),
        }
    }
}

} // verus!
