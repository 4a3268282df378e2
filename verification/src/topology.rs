//! Topology containers: faces (triangle sets) and edges (bounded curves).

use vstd::prelude::*;
use vstd::seq_lib::*;
use vstd::assert_seqs_equal;

use crate::Error;
use crate::math::{Affine, Point, sapply, sax, say, saz, sdet, apply_fits};
use crate::curves::{Curve, curve_pts, curve_xform, curve_xform_ok, rigid_xy};

verus! {

/// A triangle in space; counter-clockwise winding, seen from outside the
/// solid, defines the outward normal.
#[derive(Clone, Copy, Debug, PartialEq, Eq, Structural)]
pub struct Triangle {
    pub a: Point,
    pub b: Point,
    pub c: Point,
}

/// Whether all three corners of `t` stay representable under `m`.
pub open spec fn tri_fits(m: Affine, t: Triangle) -> bool {
    apply_fits(m, t.a) && apply_fits(m, t.b) && apply_fits(m, t.c)
}

/// The image of `t` under `m`, with winding flipped when the transform
/// mirrors (negative determinant), so outward normals stay outward.
pub open spec fn tri_xform(m: Affine, t: Triangle) -> Triangle {
    if sdet(m) >= 0 {
        Triangle { a: sapply(m, t.a), b: sapply(m, t.b), c: sapply(m, t.c) }
    } else {
        Triangle { a: sapply(m, t.a), b: sapply(m, t.c), c: sapply(m, t.b) }
    }
}

/// A face of a shape, as renderable geometry.
#[derive(Clone, Debug, PartialEq, Eq)]
pub enum Face {
    /// The face, approximated by triangles.
    Triangles(Vec<Triangle>),
}

/// The triangles of a face.
pub open spec fn face_tris(f: Face) -> Seq<Triangle> {
    match f {
        Face::Triangles(v) => v@,
    }
}

/// The image of a whole face under `m`, triangle by triangle.
pub open spec fn face_xform(m: Affine, f: Face) -> Seq<Triangle> {
    face_tris(f).map_values(|t: Triangle| tri_xform(m, t))
}

/// Whether every triangle of a list stays representable under `m`.
pub open spec fn tris_fit(m: Affine, ts: Seq<Triangle>) -> bool {
    forall|k: int| 0 <= k < ts.len() ==> tri_fits(m, #[trigger] ts[k])
}

/// Whether every triangle of `f` stays representable under `m`.
pub open spec fn face_fits(m: Affine, f: Face) -> bool {
    tris_fit(m, face_tris(f))
}

fn transform_tris(m: &Affine, tris: &Vec<Triangle>, flip: bool) -> (r: Option<Vec<Triangle>>)
    requires
        m.wf(),
        flip == (sdet(*m) < 0),
    ensures
        match r {
            Some(v) => {
                &&& forall|k: int| 0 <= k < tris@.len() ==> tri_fits(*m, #[trigger] tris@[k])
                &&& v@ == tris@.map_values(|t: Triangle| tri_xform(*m, t))
            },
            None => !(forall|k: int| 0 <= k < tris@.len() ==> tri_fits(*m, #[trigger] tris@[k])),
        },
{
    let mut v: Vec<Triangle> = Vec::new();
    let mut k: usize = 0;
    while k < tris.len()
        invariant
            m.wf(),
            flip == (sdet(*m) < 0),
            k <= tris@.len(),
            forall|i: int| 0 <= i < k ==> tri_fits(*m, #[trigger] tris@[i]),
            v@ == tris@.take(k as int).map_values(|t: Triangle| tri_xform(*m, t)),
        decreases tris@.len() - k,
    {
        let t = tris[k];
        let (pa, pb, pc) = (m.apply(t.a), m.apply(t.b), m.apply(t.c));
        match (pa, pb, pc) {
            (Some(a), Some(b), Some(c)) => {
                if flip {
                    v.push(Triangle { a, b: c, c: b });
                } else {
                    v.push(Triangle { a, b, c });
                }
                proof {
                    assert_seqs_equal!(
                        v@,
                        tris@.take(k as int + 1).map_values(|t: Triangle| tri_xform(*m, t))
                    );
                }
            },
            _ => {
                return None;
            },
        }
        k = k + 1;
    }
    proof {
        assert(tris@.take(tris@.len() as int) == tris@);
    }
    Some(v)
}

/// An ordered collection of faces.
///
/// Insertion order carries no meaning, but it is preserved, so evaluation
/// is deterministic.
#[derive(Clone, Debug, PartialEq, Eq)]
pub struct Faces(pub Vec<Face>);

impl Faces {
    /// The faces as a sequence, for contracts.
    pub open spec fn view(self) -> Seq<Face> {
        self.0@
    }

    /// Transforms every vertex of every triangle of every face.
    ///
    /// When the transform mirrors (negative determinant) the winding of
    /// every triangle is flipped, so outward normals stay outward; this is
    /// enforced explicitly, not left to blind vertex mapping. A transform
    /// of zero determinant flattens every solid and is refused as
    /// degenerate; an image coordinate outside the representable range is
    /// refused as overflow.
    pub fn transform(&self, m: &Affine) -> (r: Result<Faces, Error>)
        requires
            m.wf(),
        ensures
            match r {
                Ok(fs) => {
                    &&& sdet(*m) != 0
                    &&& fs@.len() == self@.len()
                    &&& forall|i: int| 0 <= i < self@.len()
                        ==> face_tris(#[trigger] fs@[i]) == face_xform(*m, self@[i])
                    &&& forall|i: int| 0 <= i < self@.len() ==> face_fits(*m, #[trigger] self@[i])
                },
                Err(e) => {
                    &&& (e == Error::DegenerateGeometry <==> sdet(*m) == 0)
                    &&& (e == Error::NumericOverflow <==> sdet(*m) != 0
                        && !(forall|i: int| 0 <= i < self@.len()
                            ==> face_fits(*m, #[trigger] self@[i])))
                    &&& e == Error::DegenerateGeometry || e == Error::NumericOverflow
                },
            },
    {
        let det = m.det();
        if det == 0 {
            return Err(Error::DegenerateGeometry);
        }
        let flip = det < 0;
        let mut out: Vec<Face> = Vec::new();
        let mut i: usize = 0;
        while i < self.0.len()
            invariant
                m.wf(),
                sdet(*m) != 0,
                flip == (sdet(*m) < 0),
                i <= self.0@.len(),
                out@.len() == i,
                forall|j: int| 0 <= j < i ==> face_fits(*m, #[trigger] self.0@[j]),
                forall|j: int| 0 <= j < i
                    ==> face_tris(#[trigger] out@[j]) == face_xform(*m, self.0@[j]),
            decreases self.0@.len() - i,
        {
            let Face::Triangles(tris) = &self.0[i];
            match transform_tris(m, tris, flip) {
                Some(v) => {
                    out.push(Face::Triangles(v));
                },
                None => {
                    proof {
                        assert(face_tris(self.0@[i as int]) == tris@);
                        assert(!face_fits(*m, self.0@[i as int]));
                        assert(!(forall|j: int| 0 <= j < self@.len()
                            ==> face_fits(*m, #[trigger] self@[j]))) by {
                            assert((i as int) < self@.len() && !face_fits(*m, self@[i as int]));
                        }
                    }
                    return Err(Error::NumericOverflow);
                },
            }
            i = i + 1;
        }
        Ok(Faces(out))
    }
}

/// A straight segment of an approximated curve, carrying its endpoints.
#[derive(Clone, Copy, Debug, PartialEq, Eq, Structural)]
pub struct Segment {
    pub a: Point,
    pub b: Point,
}

/// A bounded portion of a curve.
///
/// A line edge is bounded by the line's two defining points; a circle edge
/// is the whole closed circle. Edges are owned by the container that
/// produced them; there is no shared mutable state.
#[derive(Clone, Copy, Debug, PartialEq, Eq, Structural)]
pub struct Edge {
    /// The curve the edge is a portion of.
    pub curve: Curve,
}

/// An ordered collection of edges.
#[derive(Clone, Debug, PartialEq, Eq)]
pub struct Edges(pub Vec<Edge>);

/// The consecutive point pairs of a polyline, as segments.
pub open spec fn polyline_segs(pts: Seq<Point>) -> Seq<Segment> {
    if pts.len() == 0 {
        Seq::empty()
    } else {
        Seq::new((pts.len() - 1) as nat, |i: int| Segment { a: pts[i], b: pts[i + 1] })
    }
}

/// The segments of one edge's polyline at tolerance `t`.
pub open spec fn edge_segs(e: Edge, t: int) -> Seq<Segment> {
    polyline_segs(curve_pts(e.curve, t))
}

/// The segments of a list of edges, in edge traversal order.
pub open spec fn edges_segs(edges: Seq<Edge>, t: int) -> Seq<Segment>
    decreases edges.len(),
{
    if edges.len() == 0 {
        Seq::empty()
    } else {
        edges_segs(edges.drop_last(), t) + edge_segs(edges.last(), t)
    }
}

impl Edges {
    /// The edges as a sequence, for contracts.
    pub open spec fn view(self) -> Seq<Edge> {
        self.0@
    }

    /// Bounds under which every edge can be sampled and moved rigidly.
    pub open spec fn wf(self) -> bool {
        forall|i: int| 0 <= i < self@.len() ==> (#[trigger] self@[i]).curve.wf()
    }

    /// Approximates every edge into straight segments at `tolerance` and
    /// appends them to `out`, preserving edge traversal order.
    pub fn approx_segments(&self, tolerance: i64, out: &mut Vec<Segment>) -> (r: Result<(), Error>)
        requires
            self.wf(),
        ensures
            match r {
                Ok(()) => tolerance >= 1 && final(out)@ == old(out)@ + edges_segs(self@, tolerance as int),
                Err(e) => tolerance < 1 && e == Error::InvalidTolerance && final(out)@ == old(out)@,
            },
    {
        if tolerance < 1 {
            return Err(Error::InvalidTolerance);
        }
        let ghost tt = tolerance as int;
        let mut i: usize = 0;
        while i < self.0.len()
            invariant
                self.wf(),
                tolerance >= 1,
                tt == tolerance as int,
                i <= self.0@.len(),
                out@ == old(out)@ + edges_segs(self.0@.take(i as int), tt),
            decreases self.0@.len() - i,
        {
            let edge = &self.0[i];
            let mut pts: Vec<Point> = Vec::new();
            let res = edge.curve.approx_vertices(tolerance, &mut pts);
            proof {
                assert(res is Ok);
                assert(pts@ == curve_pts(edge.curve, tt));
            }
            let mut k: usize = 0;
            if pts.len() > 0 {
                while k < pts.len() - 1
                    invariant
                        tolerance >= 1,
                        tt == tolerance as int,
                        pts@.len() > 0,
                        k <= pts@.len() - 1,
                        pts@ == curve_pts(edge.curve, tt),
                        out@ == old(out)@ + edges_segs(self.0@.take(i as int), tt)
                            + polyline_segs(pts@).take(k as int),
                        i < self.0@.len(),
                        self.0@[i as int] == *edge,
                        self.wf(),
                    decreases pts@.len() - 1 - k,
                {
                    out.push(Segment { a: pts[k], b: pts[k + 1] });
                    proof {
                        assert_seqs_equal!(
                            out@,
                            old(out)@ + edges_segs(self.0@.take(i as int), tt)
                                + polyline_segs(pts@).take(k as int + 1)
                        );
                    }
                    k = k + 1;
                }
            }
            proof {
                assert(polyline_segs(pts@).take(k as int) == polyline_segs(pts@));
                assert(self.0@.take(i as int + 1).drop_last() == self.0@.take(i as int));
                assert(self.0@.take(i as int + 1).last() == self.0@[i as int]);
                assert(edges_segs(self.0@.take(i as int + 1), tt)
                    == edges_segs(self.0@.take(i as int), tt) + edge_segs(self.0@[i as int], tt));
                assert_seqs_equal!(
                    out@,
                    old(out)@ + edges_segs(self.0@.take(i as int + 1), tt)
                );
            }
            i = i + 1;
        }
        proof {
            assert(self.0@.take(self.0@.len() as int) == self.0@);
        }
        Ok(())
    }

    /// Transforms every edge's curve. Circle edges demand a transform that
    /// carries circles to circles.
    pub fn transform(&self, m: &Affine) -> (r: Option<Edges>)
        requires
            m.wf(),
            self.wf(),
            (exists|i: int| 0 <= i < self@.len() && (#[trigger] self@[i]).curve is Circle)
                ==> rigid_xy(*m),
        ensures
            match r {
                Some(es) => {
                    &&& es.wf()
                    &&& es@.len() == self@.len()
                    &&& forall|i: int| 0 <= i < self@.len()
                        ==> curve_xform_ok(*m, (#[trigger] self@[i]).curve)
                    &&& forall|i: int| 0 <= i < self@.len()
                        ==> #[trigger] es@[i] == (Edge { curve: curve_xform(*m, self@[i].curve) })
                },
                None => !(forall|i: int| 0 <= i < self@.len()
                    ==> curve_xform_ok(*m, (#[trigger] self@[i]).curve)),
            },
    {
        let mut out: Vec<Edge> = Vec::new();
        let mut i: usize = 0;
        while i < self.0.len()
            invariant
                m.wf(),
                self.wf(),
                (exists|k: int| 0 <= k < self@.len() && (#[trigger] self@[k]).curve is Circle)
                    ==> rigid_xy(*m),
                i <= self.0@.len(),
                out@.len() == i,
                forall|k: int| 0 <= k < i ==> (#[trigger] out@[k]).curve.wf(),
                forall|k: int| 0 <= k < i
                    ==> curve_xform_ok(*m, (#[trigger] self.0@[k]).curve),
                forall|k: int| 0 <= k < i
                    ==> #[trigger] out@[k] == (Edge { curve: curve_xform(*m, self.0@[k].curve) }),
            decreases self.0@.len() - i,
        {
            let edge = &self.0[i];
            match edge.curve.transform(m) {
                Some(c) => {
                    proof {
                        assert(curve_xform_ok(*m, self.0@[i as int].curve));
                        assert(c == curve_xform(*m, self.0@[i as int].curve));
                    }
                    out.push(Edge { curve: c });
                },
                None => {
                    proof {
                        assert(!curve_xform_ok(*m, self.0@[i as int].curve));
                    }
                    return None;
                },
            }
            i = i + 1;
        }
        Some(Edges(out))
    }
}

} // verus!

verus! {

/// The corners of a triangle list, flattened in order: three points per
/// triangle.
pub open spec fn tris_pts(ts: Seq<Triangle>) -> Seq<Point> {
    Seq::new((3 * ts.len()) as nat, |i: int|
        if i % 3 == 0 {
            ts[i / 3].a
        } else if i % 3 == 1 {
            ts[i / 3].b
        } else {
            ts[i / 3].c
        })
}

/// The corners of every face of a list, flattened in face order.
pub open spec fn faces_flat_pts(fs: Seq<Face>) -> Seq<Point>
    decreases fs.len(),
{
    if fs.len() == 0 {
        Seq::empty()
    } else {
        faces_flat_pts(fs.drop_last()) + tris_pts(face_tris(fs.last()))
    }
}

impl Faces {
    /// Flattens the faces into the vertex and index buffers a rendering
    /// backend consumes: every triangle contributes its three corners in
    /// order, and index `i` simply names vertex `i`.
    pub fn mesh_buffers(&self) -> (r: (Vec<Point>, Vec<usize>))
        ensures
            r.0@ == faces_flat_pts(self@),
            r.1@.len() == r.0@.len(),
            forall|i: int| 0 <= i < r.1@.len() ==> #[trigger] r.1@[i] == i,
    {
        let mut verts: Vec<Point> = Vec::new();
        let mut i: usize = 0;
        while i < self.0.len()
            invariant
                i <= self.0@.len(),
                verts@ == faces_flat_pts(self.0@.take(i as int)),
            decreases self.0@.len() - i,
        {
            let Face::Triangles(tris) = &self.0[i];
            let ghost before = verts@;
            let mut k: usize = 0;
            while k < tris.len()
                invariant
                    k <= tris@.len(),
                    verts@ == before + tris_pts(tris@.take(k as int)),
                decreases tris@.len() - k,
            {
                verts.push(tris[k].a);
                verts.push(tris[k].b);
                verts.push(tris[k].c);
                proof {
                    assert_seqs_equal!(verts@, before + tris_pts(tris@.take(k as int + 1)));
                }
                k = k + 1;
            }
            proof {
                assert(tris@.take(tris@.len() as int) == tris@);
                assert(self.0@.take(i as int + 1).drop_last() == self.0@.take(i as int));
                assert(self.0@.take(i as int + 1).last() == self.0@[i as int]);
                assert(face_tris(self.0@[i as int]) == tris@);
            }
            i = i + 1;
        }
        proof {
            assert(self.0@.take(self.0@.len() as int) == self.0@);
        }
        let mut idx: Vec<usize> = Vec::new();
        let mut j: usize = 0;
        let n = verts.len();
        while j < n
            invariant
                j <= n,
                idx@.len() == j,
                forall|q: int| 0 <= q < j ==> #[trigger] idx@[q] == q,
            decreases n - j,
        {
            idx.push(j);
            j = j + 1;
        }
        (verts, idx)
    }
}

} // verus!

verus! {

/// The same triangle with reversed winding: the outward normal flips.
pub open spec fn tri_flip(t: Triangle) -> Triangle {
    Triangle { a: t.a, b: t.c, c: t.b }
}

impl Faces {
    /// Reverses the winding of every triangle of every face, in place in
    /// space: no vertex moves, every outward normal flips.
    pub fn flip_winding(&self) -> (r: Faces)
        ensures
            r@.len() == self@.len(),
            forall|i: int| 0 <= i < self@.len()
                ==> face_tris(#[trigger] r@[i])
                    == face_tris(self@[i]).map_values(|t: Triangle| tri_flip(t)),
    {
        let mut out: Vec<Face> = Vec::new();
        let mut i: usize = 0;
        while i < self.0.len()
            invariant
                i <= self.0@.len(),
                out@.len() == i,
                forall|j: int| 0 <= j < i
                    ==> face_tris(#[trigger] out@[j])
                        == face_tris(self.0@[j]).map_values(|t: Triangle| tri_flip(t)),
            decreases self.0@.len() - i,
        {
            let Face::Triangles(tris) = &self.0[i];
            let mut v: Vec<Triangle> = Vec::new();
            let mut k: usize = 0;
            while k < tris.len()
                invariant
                    k <= tris@.len(),
                    v@ == tris@.take(k as int).map_values(|t: Triangle| tri_flip(t)),
                decreases tris@.len() - k,
            {
                let t = tris[k];
                v.push(Triangle { a: t.a, b: t.c, c: t.b });
                proof {
                    assert_seqs_equal!(
                        v@,
                        tris@.take(k as int + 1).map_values(|t: Triangle| tri_flip(t))
                    );
                }
                k = k + 1;
            }
            proof {
                assert(tris@.take(tris@.len() as int) == tris@);
                assert(face_tris(self.0@[i as int]) == tris@);
            }
            out.push(Face::Triangles(v));
            i = i + 1;
        }
        Faces(out)
    }
}

} // verus!
