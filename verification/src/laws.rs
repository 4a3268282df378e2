//! The laws the kernel keeps, stated once and proved.

use vstd::prelude::*;
use vstd::seq_lib::*;
use vstd::arithmetic::div_mod::lemma_fundamental_div_mod;

use crate::math::{
    Aabb, Affine, Point, TRANS_MAX, apply_fits, sapply, sax, say, saz, sdet, translation_spec,
};
use crate::curves::{
    Circle, Curve, Line, circle_count, circle_off, circle_pt, curve_pts, curve_xform,
    curve_xform_ok, lemma_circle_off_bounded, quadrant_len,
};
use crate::topology::{Edge, Segment, Triangle, edge_segs, edges_segs, tri_xform, tris_fit};
use crate::shapes::{
    Shape3d, Sweep, loop_edges, max_x, max_y, min_x, min_y,
    lemma_minmax_bounds, s2_bv, s2_edges, s2_face_tris, s3_faces, sweep_faces_spec,
    tz_pt, tz_fits, segs_tz_fit,
};

verus! {

/// Transforming a line and then sampling it equals sampling it and then
/// transforming each sample: the two orders agree exactly, for every
/// transform whose images stay representable.
pub proof fn lemma_line_transform_commutes(l: Line, m: Affine, t: int)
    requires
        curve_xform_ok(m, Curve::Line(l)),
    ensures
        curve_pts(curve_xform(m, Curve::Line(l)), t)
            == curve_pts(Curve::Line(l), t).map_values(|p: Point| sapply(m, p)),
{
    let lhs = curve_pts(curve_xform(m, Curve::Line(l)), t);
    let rhs = curve_pts(Curve::Line(l), t).map_values(|p: Point| sapply(m, p));
    assert(lhs.len() == rhs.len());
    assert(lhs[0] == rhs[0]);
    assert(lhs[1] == rhs[1]);
    assert_seqs_equal!(lhs, rhs);
}

proof fn lemma_translation_apply(dx: i64, dy: i64, dz: i64, p: Point)
    by (nonlinear_arith)
    ensures
        sax(translation_spec(dx, dy, dz), p) == p.x + dx,
        say(translation_spec(dx, dy, dz), p) == p.y + dy,
        saz(translation_spec(dx, dy, dz), p) == p.z + dz,
        sdet(translation_spec(dx, dy, dz)) == 1,
{
}

proof fn lemma_mirror_apply(p: Point)
    by (nonlinear_arith)
    ensures
        sax(mirror_z_spec(), p) == p.x,
        say(mirror_z_spec(), p) == p.y,
        saz(mirror_z_spec(), p) == -p.z,
        sdet(mirror_z_spec()) == -1,
{
}

/// Translating a curve and then sampling it equals sampling it and then
/// translating each sample, exactly. (A quarter turn also carries samples
/// to samples, but reorders them along the loop; that case is
/// `lemma_quarter_turn_permutes_circle_samples` below.)
pub proof fn lemma_translation_commutes_with_approx(c: Curve, m: Affine, t: int)
    requires
        c.wf(),
        t >= 1,
        curve_xform_ok(m, c),
        exists|dx: i64, dy: i64, dz: i64| m == translation_spec(dx, dy, dz),
    ensures
        curve_pts(curve_xform(m, c), t) == curve_pts(c, t).map_values(|p: Point| sapply(m, p)),
{
    match c {
        Curve::Line(l) => {
            lemma_line_transform_commutes(l, m, t);
        },
        Curve::Circle(ci) => {
            let (dx, dy, dz) = choose|dx: i64, dy: i64, dz: i64|
                m == translation_spec(dx, dy, dz);
            let c2 = Circle { center: sapply(m, ci.center), radius: ci.radius };
            let lhs = curve_pts(curve_xform(m, c), t);
            let rhs = curve_pts(c, t).map_values(|p: Point| sapply(m, p));
            let r = ci.radius as int;
            crate::curves::lemma_circle_count(r, t);
            lemma_translation_apply(dx, dy, dz, ci.center);
            assert(lhs.len() == circle_count(r, t));
            assert(rhs.len() == circle_count(r, t));
            assert forall|j: int| 0 <= j < circle_count(r, t)
                implies lhs[j] == rhs[j] by {
                lemma_circle_off_bounded(r, t, j);
                let off = circle_off(r, t, j);
                let p = circle_pt(ci, t, j);
                lemma_translation_apply(dx, dy, dz, p);
                lemma_translation_apply(dx, dy, dz, c2.center);
                assert(p.x == ci.center.x + off.0 && p.y == ci.center.y + off.1
                    && p.z == ci.center.z);
                assert(apply_fits(m, p));
                assert(lhs[j] == circle_pt(c2, t, j));
                assert(rhs[j] == sapply(m, p));
            }
            assert_seqs_equal!(lhs, rhs);
        },
    }
}

/// A line needs no subdivision: its approximation is exactly its two
/// defining points, for every positive tolerance.
pub proof fn lemma_line_approx_exact(l: Line, t: int)
    ensures
        curve_pts(Curve::Line(l), t) == seq![l.a, l.b],
{
}

/// Applying the identity transform to every triangle changes nothing.
pub proof fn lemma_identity_tri(tri: Triangle)
    ensures
        tri_xform(translation_spec(0, 0, 0), tri) == tri,
        tris_fit(translation_spec(0, 0, 0), seq![tri]),
{
    let id = translation_spec(0, 0, 0);
    lemma_translation_apply(0, 0, 0, tri.a);
    lemma_translation_apply(0, 0, 0, tri.b);
    lemma_translation_apply(0, 0, 0, tri.c);
    assert(sapply(id, tri.a) == tri.a);
    assert(sapply(id, tri.b) == tri.b);
    assert(sapply(id, tri.c) == tri.c);
}

/// A transform node carrying the identity matrix evaluates to exactly its
/// operand's faces: identity transformation is idempotent on evaluation.
pub proof fn lemma_identity_transform_faces(node: Shape3d, t: int)
    requires
        node matches Shape3d::Transform(tr) && tr.matrix == translation_spec(0, 0, 0),
    ensures
        node matches Shape3d::Transform(tr) ==> s3_faces(node, t) == s3_faces(tr.shape, t),
{
    let tr = node->Transform_0;
    let id = translation_spec(0, 0, 0);
    lemma_translation_apply(0, 0, 0, Point { x: 0, y: 0, z: 0 });
    assert(sdet(id) == 1);
    match s3_faces(tr.shape, t) {
        Err(e) => {},
        Ok(fss) => {
            assert forall|i: int| 0 <= i < fss.len()
                implies tris_fit(id, #[trigger] fss[i]) by {
                assert forall|k: int| 0 <= k < fss[i].len()
                    implies crate::topology::tri_fits(id, #[trigger] fss[i][k]) by {
                    lemma_identity_tri(fss[i][k]);
                }
            }
            let mapped = Seq::new(fss.len(), |i: int|
                fss[i].map_values(|x: Triangle| tri_xform(id, x)));
            assert forall|i: int| 0 <= i < fss.len() implies mapped[i] == fss[i] by {
                assert forall|k: int| 0 <= k < fss[i].len()
                    implies fss[i].map_values(|x: Triangle| tri_xform(id, x))[k]
                        == fss[i][k] by {
                    lemma_identity_tri(fss[i][k]);
                }
                assert_seqs_equal!(mapped[i], fss[i]);
            }
            assert_seqs_equal!(mapped, fss);
        },
    }
}

/// The outward-pointing normal direction of a triangle, as the cross
/// product of its edge vectors; winding defines its sign.
pub open spec fn tri_normal(t: Triangle) -> (int, int, int) {
    let ux = t.b.x - t.a.x;
    let uy = t.b.y - t.a.y;
    let uz = t.b.z - t.a.z;
    let vx = t.c.x - t.a.x;
    let vy = t.c.y - t.a.y;
    let vz = t.c.z - t.a.z;
    (uy * vz - uz * vy, uz * vx - ux * vz, ux * vy - uy * vx)
}

/// The mirror across the `xy` plane, a negative-determinant transform.
pub open spec fn mirror_z_spec() -> Affine {
    Affine {
        xx: 1, xy: 0, xz: 0,
        yx: 0, yy: 1, yz: 0,
        zx: 0, zy: 0, zz: -1i64,
        tx: 0, ty: 0, tz: 0,
    }
}

/// Mirroring flips triangle winding so the outward normal direction is
/// preserved: the transformed triangle's normal is exactly the mirror
/// image of the original normal, not its opposite.
pub proof fn lemma_mirror_preserves_normal(tri: Triangle)
    requires
        crate::topology::tri_fits(mirror_z_spec(), tri),
    ensures
        sdet(mirror_z_spec()) == -1,
        ({
            let (nx, ny, nz) = tri_normal(tri);
            tri_normal(tri_xform(mirror_z_spec(), tri)) == (nx, ny, -nz)
        }),
{
    let m = mirror_z_spec();
    lemma_mirror_apply(tri.a);
    lemma_mirror_apply(tri.b);
    lemma_mirror_apply(tri.c);
    assert(sdet(m) == -1);
    let ft = tri_xform(m, tri);
    assert(ft.a == sapply(m, tri.a) && ft.b == sapply(m, tri.c) && ft.c == sapply(m, tri.b));
    assert(ft.a.x == tri.a.x && ft.a.y == tri.a.y && ft.a.z == -tri.a.z);
    assert(ft.b.x == tri.c.x && ft.b.y == tri.c.y && ft.b.z == -tri.c.z);
    assert(ft.c.x == tri.b.x && ft.c.y == tri.b.y && ft.c.z == -tri.b.z);
    let (nx, ny, nz) = tri_normal(tri);
    assert(tri_normal(ft).0 == nx && tri_normal(ft).1 == ny && tri_normal(ft).2 == -nz)
        by (nonlinear_arith)
        requires
            ft.a.x == tri.a.x && ft.a.y == tri.a.y && ft.a.z == -tri.a.z
                && ft.b.x == tri.c.x && ft.b.y == tri.c.y && ft.b.z == -tri.c.z
                && ft.c.x == tri.b.x && ft.c.y == tri.b.y && ft.c.z == -tri.b.z
                && (nx, ny, nz) == tri_normal(tri);
}

} // verus!

verus! {

proof fn lemma_edges_segs_lines(es: Seq<Edge>, t: int)
    requires
        forall|i: int| 0 <= i < es.len() ==> (#[trigger] es[i]).curve is Line,
    ensures
        edges_segs(es, t).len() == es.len(),
        forall|i: int| 0 <= i < es.len()
            ==> edges_segs(es, t)[i] == (Segment {
                a: (#[trigger] es[i]).curve->Line_0.a,
                b: es[i].curve->Line_0.b,
            }),
    decreases es.len(),
{
    if es.len() > 0 {
        lemma_edges_segs_lines(es.drop_last(), t);
        let l = es.last().curve->Line_0;
        assert(edge_segs(es.last(), t) =~= seq![Segment { a: l.a, b: l.b }]);
        assert forall|i: int| 0 <= i < es.len()
            implies edges_segs(es, t)[i] == (Segment {
                a: (#[trigger] es[i]).curve->Line_0.a,
                b: es[i].curve->Line_0.b,
            }) by {
            if i < es.len() - 1 {
                assert(es.drop_last()[i] == es[i]);
                assert(edges_segs(es, t)[i] == edges_segs(es.drop_last(), t)[i]);
            } else {
                assert(edges_segs(es, t)[i] == edge_segs(es.last(), t)[0]);
            }
        }
    }
}

proof fn lemma_minmax_in_range(pts: Seq<Point>)
    requires
        pts.len() >= 1,
        forall|i: int| 0 <= i < pts.len()
            ==> -TRANS_MAX <= (#[trigger] pts[i]).x <= TRANS_MAX
                && -TRANS_MAX <= pts[i].y <= TRANS_MAX,
    ensures
        -TRANS_MAX <= min_x(pts) <= TRANS_MAX,
        -TRANS_MAX <= max_x(pts) <= TRANS_MAX,
        -TRANS_MAX <= min_y(pts) <= TRANS_MAX,
        -TRANS_MAX <= max_y(pts) <= TRANS_MAX,
    decreases pts.len(),
{
    if pts.len() > 1 {
        lemma_minmax_in_range(pts.drop_last());
    }
}

/// Everything a sweep's face evaluation rests on for a sketch profile:
/// evaluation succeeds for every positive tolerance.
pub proof fn lemma_sweep_of_sketch_ok(sw: Sweep, t: int)
    requires
        sw.wf(),
        t >= 1,
        sw.shape is Sketch,
    ensures
        sweep_faces_spec(sw, t) is Ok,
{
    let sk = sw.shape->Sketch_0;
    let inner = s2_face_tris(sw.shape, t);
    let tz = translation_spec(0, 0, sw.length);
    assert forall|k: int| 0 <= k < inner.len()
        implies crate::topology::tri_fits(tz, #[trigger] inner[k]) by {
        let tri = inner[k];
        assert(tri.a == sk@[0] && tri.b == sk@[k + 1] && tri.c == sk@[k + 2]);
        lemma_translation_apply(0, 0, sw.length, tri.a);
        lemma_translation_apply(0, 0, sw.length, tri.b);
        lemma_translation_apply(0, 0, sw.length, tri.c);
    }
    let es = s2_edges(sw.shape);
    assert forall|i: int| 0 <= i < es.len() implies (#[trigger] es[i]).curve is Line by {
        assert(es[i] == loop_edges(sk@)[i]);
    }
    lemma_edges_segs_lines(es, t);
    let segs = edges_segs(es, t);
    assert forall|i: int| 0 <= i < segs.len()
        implies tz_fits((#[trigger] segs[i]).a, sw.length)
            && tz_fits(segs[i].b, sw.length) by {
        let l = es[i].curve->Line_0;
        assert(l.a == sk@[i] && l.a.z == 0);
        assert(l.b.z == 0);
    }
    assert(segs_tz_fit(segs, sw.length));
}

/// Sweep face count: for a sketch profile of `n` boundary points the
/// boundary approximates to `n` segments, the side face holds two
/// triangles per segment, and the faces are the bottom cap, the top cap
/// and that one side face.
pub proof fn lemma_sweep_face_count(sw: Sweep, t: int)
    requires
        sw.wf(),
        t >= 1,
        sw.shape is Sketch,
    ensures
        sweep_faces_spec(sw, t) matches Ok(fss) && {
            let sk = sw.shape->Sketch_0;
            &&& fss.len() == 3
            &&& fss[0].len() == sk@.len() - 2
            &&& fss[1].len() == sk@.len() - 2
            &&& fss[2].len() == 2 * sk@.len()
        },
{
    lemma_sweep_of_sketch_ok(sw, t);
    let sk = sw.shape->Sketch_0;
    let es = s2_edges(sw.shape);
    assert forall|i: int| 0 <= i < es.len() implies (#[trigger] es[i]).curve is Line by {
        assert(es[i] == loop_edges(sk@)[i]);
    }
    lemma_edges_segs_lines(es, t);
}

/// Sweep volume containment: for every sketch profile, the sweep's
/// bounding volume reaches exactly the sweep length in `z` and contains
/// every vertex of every generated face — the bottom cap is the profile's
/// face flipped in place, so no vertex leaves the profile's own box.
pub proof fn lemma_sweep_volume_contains(sw: Sweep, t: int)
    requires
        sw.wf(),
        t >= 1,
        sw.shape is Sketch,
    ensures
        sweep_faces_spec(sw, t) is Ok,
        ({
            let b = s2_bv(sw.shape);
            let bb = Aabb { mins: b.mins, maxs: Point { x: b.maxs.x, y: b.maxs.y, z: sw.length } };
            let fss = sweep_faces_spec(sw, t)->Ok_0;
            &&& bb.maxs.z == sw.length
            &&& forall|i: int, k: int| 0 <= i < fss.len() && 0 <= k < fss[i].len()
                ==> bb.spec_contains((#[trigger] fss[i][k]).a)
                    && bb.spec_contains(fss[i][k].b)
                    && bb.spec_contains(fss[i][k].c)
        }),
{
    lemma_sweep_of_sketch_ok(sw, t);
    let sk = sw.shape->Sketch_0;
    let pts = sk@;
    lemma_minmax_in_range(pts);
    let b = s2_bv(sw.shape);
    let bb = Aabb { mins: b.mins, maxs: Point { x: b.maxs.x, y: b.maxs.y, z: sw.length } };
    let fss = sweep_faces_spec(sw, t)->Ok_0;
    let inner = s2_face_tris(sw.shape, t);
    let tz = translation_spec(0, 0, sw.length);
    let es = s2_edges(sw.shape);
    assert forall|i: int| 0 <= i < es.len() implies (#[trigger] es[i]).curve is Line by {
        assert(es[i] == loop_edges(pts)[i]);
    }
    lemma_edges_segs_lines(es, t);
    let segs = edges_segs(es, t);
    assert forall|p: Point| pts.contains(p) implies bb.spec_contains(p)
        && bb.spec_contains(sapply(tz, p))
        && bb.spec_contains(tz_pt(p, sw.length)) by {
        let i = choose|i: int| 0 <= i < pts.len() && pts[i] == p;
        lemma_minmax_bounds(pts, i);
        lemma_translation_apply(0, 0, sw.length, p);
    }
    assert forall|i: int, k: int| 0 <= i < fss.len() && 0 <= k < fss[i].len()
        implies bb.spec_contains((#[trigger] fss[i][k]).a)
            && bb.spec_contains(fss[i][k].b)
            && bb.spec_contains(fss[i][k].c) by {
        if i == 0 || i == 1 {
            let tri = inner[k];
            assert(tri.a == pts[0] && tri.b == pts[k + 1] && tri.c == pts[k + 2]);
            assert(pts.contains(pts[0]) && pts.contains(pts[k + 1]) && pts.contains(pts[k + 2]));
            assert(sdet(tz) >= 0) by {
                lemma_translation_apply(0, 0, sw.length, tri.a);
            }
            if i == 0 {
                assert(fss[0][k] == crate::topology::tri_flip(tri));
            } else {
                assert(fss[1][k] == tri_xform(tz, tri));
            }
        } else {
            let s = segs[k / 2];
            let li = k / 2;
            let l = es[li].curve->Line_0;
            assert(l.a == pts[li] && l.b == pts[if li + 1 == pts.len() { 0int } else { li + 1 }]);
            assert(pts.contains(l.a) && pts.contains(l.b));
        }
    }
}

} // verus!

verus! {

/// A transform node carrying the identity matrix evaluates to exactly its
/// operand's vertices.
pub proof fn lemma_identity_transform_vertices(node: Shape3d)
    requires
        node matches Shape3d::Transform(tr) && tr.matrix == translation_spec(0, 0, 0),
    ensures
        node matches Shape3d::Transform(tr)
            ==> crate::shapes::s3_vertices(node) == crate::shapes::s3_vertices(tr.shape),
{
    let tr = node->Transform_0;
    let id = translation_spec(0, 0, 0);
    match crate::shapes::s3_vertices(tr.shape) {
        Err(_) => {},
        Ok(vs) => {
            assert forall|i: int| 0 <= i < vs.len()
                implies apply_fits(id, #[trigger] vs[i]) && sapply(id, vs[i]) == vs[i] by {
                lemma_translation_apply(0, 0, 0, vs[i]);
            }
            assert_seqs_equal!(vs.map_values(|p: Point| sapply(id, p)), vs);
        },
    }
}

/// A transform node carrying the identity matrix evaluates to exactly its
/// operand's edges, provided those edges are well-formed (as every edge
/// list the kernel itself produces is).
pub proof fn lemma_identity_transform_edges(node: Shape3d)
    requires
        node matches Shape3d::Transform(tr) && tr.matrix == translation_spec(0, 0, 0),
        node matches Shape3d::Transform(tr)
            ==> (crate::shapes::s3_edges(tr.shape) matches Ok(es)
                ==> forall|i: int| 0 <= i < es.len() ==> (#[trigger] es[i]).curve.wf()),
    ensures
        node matches Shape3d::Transform(tr)
            ==> crate::shapes::s3_edges(node) == crate::shapes::s3_edges(tr.shape),
{
    let tr = node->Transform_0;
    let id = translation_spec(0, 0, 0);
    match crate::shapes::s3_edges(tr.shape) {
        Err(_) => {},
        Ok(es) => {
            assert(crate::curves::rigid_xy(id));
            assert forall|i: int| 0 <= i < es.len()
                implies curve_xform_ok(id, (#[trigger] es[i]).curve)
                    && curve_xform(id, es[i].curve) == es[i].curve by {
                match es[i].curve {
                    Curve::Line(l) => {
                        lemma_translation_apply(0, 0, 0, l.a);
                        lemma_translation_apply(0, 0, 0, l.b);
                    },
                    Curve::Circle(ci) => {
                        lemma_translation_apply(0, 0, 0, ci.center);
                    },
                }
            }
            assert_seqs_equal!(
                crate::shapes::edges_xform(id, es),
                es
            );
        },
    }
}

} // verus!


verus! {

/// The quarter turn about the `z` axis, as a specification value.
pub open spec fn quarter_turn_z_spec() -> Affine {
    Affine {
        xx: 0, xy: -1i64, xz: 0,
        yx: 1, yy: 0, yz: 0,
        zx: 0, zy: 0, zz: 1,
        tx: 0, ty: 0, tz: 0,
    }
}

proof fn lemma_quarter_apply(p: Point)
    by (nonlinear_arith)
    ensures
        sax(quarter_turn_z_spec(), p) == -p.y,
        say(quarter_turn_z_spec(), p) == p.x,
        saz(quarter_turn_z_spec(), p) == p.z,
{
}

/// A quarter turn about `z` carries circle samples to circle samples: the
/// transformed circle's open sample loop is exactly the original's samples,
/// each given the quarter turn, read starting three quadrants along. So
/// rotation commutes with sampling up to a cyclic shift of the loop.
pub proof fn lemma_quarter_turn_permutes_circle_samples(ci: Circle, t: int, j: int)
    requires
        ci.wf(),
        t >= 1,
        curve_xform_ok(quarter_turn_z_spec(), Curve::Circle(ci)),
        0 <= j < circle_count(ci.radius as int, t) - 1,
    ensures
        ({
            let m = quarter_turn_z_spec();
            let c2 = Circle { center: sapply(m, ci.center), radius: ci.radius };
            let ql = quadrant_len(ci.radius as int, t);
            let n4 = 4 * ql;
            circle_pt(c2, t, j) == sapply(m, circle_pt(ci, t, (j + 3 * ql) % n4))
        }),
{
    let m = quarter_turn_z_spec();
    let r = ci.radius as int;
    let ql = quadrant_len(r, t);
    let n4 = 4 * ql;
    let c2 = Circle { center: sapply(m, ci.center), radius: ci.radius };
    let k = (j + 3 * ql) % n4;
    assert(ql >= 1);
    assert(k == if j < ql { j + 3 * ql } else { j - ql }) by (nonlinear_arith)
        requires k == (j + 3 * ql) % n4 && n4 == 4 * ql && ql >= 1 && 0 <= j < n4;
    lemma_circle_off_bounded(r, t, j);
    lemma_circle_off_bounded(r, t, k);
    let offj = circle_off(r, t, j);
    let offk = circle_off(r, t, k);
    assert((-offk.1, offk.0) == offj) by {
        lemma_fundamental_div_mod(j, ql);
        lemma_fundamental_div_mod(k, ql);
        let qj = j / ql;
        let wj = j % ql;
        let qk = k / ql;
        let wk = k % ql;
        assert(0 <= wj < ql && 0 <= qj <= 3) by (nonlinear_arith)
            requires j == ql * qj + wj && 0 <= wj < ql && 0 <= j < 4 * ql && ql >= 1
                && qj == j / ql && wj == j % ql;
        assert(0 <= wk < ql && 0 <= qk <= 3) by (nonlinear_arith)
            requires k == ql * qk + wk && 0 <= wk < ql && 0 <= k < 4 * ql && ql >= 1
                && qk == k / ql && wk == k % ql;
        assert(wk == wj && (qk == if qj == 0 { 3int } else { qj - 1 })) by (nonlinear_arith)
            requires j == ql * qj + wj && k == ql * qk + wk && 0 <= wj < ql && 0 <= wk < ql
                && 0 <= qj <= 3 && 0 <= qk <= 3 && ql >= 1
                && k == (if j < ql { j + 3 * ql } else { j - ql });
    }
    lemma_quarter_apply(ci.center);
    lemma_quarter_apply(circle_pt(ci, t, k));
    assert(circle_pt(c2, t, j) == sapply(m, circle_pt(ci, t, k)));
}

} // verus!

verus! {

/// Transform bounding-volume correctness: a transform node's box is built
/// from all eight transformed corners of its operand's box — never from
/// the two extreme corners alone, which under rotation underestimates the
/// box — and therefore contains every one of the eight corner images.
pub proof fn lemma_transform_bv_contains_corners(node: Shape3d, i: int)
    requires
        node matches Shape3d::Transform(tr),
        crate::shapes::s3_bv(node) is Ok,
        0 <= i < 8,
    ensures
        node matches Shape3d::Transform(tr)
            ==> crate::shapes::s3_bv(node)->Ok_0.spec_contains(
                sapply(tr.matrix, crate::shapes::s3_bv(tr.shape)->Ok_0.spec_corner(i))),
{
    let tr = node->Transform_0;
    let bb = crate::shapes::s3_bv(tr.shape)->Ok_0;
    crate::math::lemma_corners_box_contains(tr.matrix, bb, 8, i);
}

} // verus!

verus! {

/// The general face-count shape of every sweep that evaluates: one bottom
/// cap and one top cap, each with as many triangles as the profile's face,
/// and one side face with exactly two triangles per boundary segment.
pub proof fn lemma_sweep_face_count_general(sw: Sweep, t: int)
    requires
        sweep_faces_spec(sw, t) is Ok,
    ensures
        ({
            let fss = sweep_faces_spec(sw, t)->Ok_0;
            &&& fss.len() == 3
            &&& fss[0].len() == s2_face_tris(sw.shape, t).len()
            &&& fss[1].len() == s2_face_tris(sw.shape, t).len()
            &&& fss[2].len() == 2 * edges_segs(s2_edges(sw.shape), t).len()
        }),
{
}

} // verus!

