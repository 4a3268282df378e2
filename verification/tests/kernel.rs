use fj_kernel::curves::{Circle, Curve, Line};
use fj_kernel::math::{Aabb, Affine, Point};
use fj_kernel::shapes::{Shape2d, Shape3d, Sketch, Sweep, Transform};
use fj_kernel::syntax::{Difference, Sketch as SketchSyntax, Sweep as SweepSyntax, Translate, Union};
use fj_kernel::topology::Face;
use fj_kernel::Error;

fn pt(x: i64, y: i64, z: i64) -> Point {
    Point { x, y, z }
}

fn rot90_z_translate(tx: i64, ty: i64, tz: i64) -> Affine {
    Affine::new(0, -1, 0, 1, 0, 0, 0, 0, 1, tx, ty, tz).unwrap()
}

fn square(side: i64) -> Sketch {
    let pts: Vec<(i64, i64)> = vec![(0, 0), (side, 0), (side, side), (0, side)];
    pts.sketch().unwrap()
}

fn centered_square(half: i64) -> Sketch {
    let pts: Vec<(i64, i64)> =
        vec![(-half, -half), (half, -half), (half, half), (-half, half)];
    pts.sketch().unwrap()
}

#[test]
fn test_transform() {
    let line = Line { a: pt(1, 0, 0), b: pt(1, 1, 0) };
    let transformation = rot90_z_translate(1, 2, 3);
    let line = line.transform(&transformation).unwrap();
    assert_eq!(line.a, pt(1, 3, 3));
    assert_eq!(line.b, pt(0, 3, 3));
}

#[test]
fn line_approx_is_exactly_its_endpoints() {
    let line = Curve::Line(Line { a: pt(4, 5, 6), b: pt(-7, 8, 9) });
    let mut out = Vec::new();
    line.approx_vertices(1, &mut out).unwrap();
    assert_eq!(out, vec![pt(4, 5, 6), pt(-7, 8, 9)]);
}

#[test]
fn non_positive_tolerance_is_rejected_before_sampling() {
    let circle = Circle::new(pt(0, 0, 0), 100).unwrap();
    let mut out = Vec::new();
    assert_eq!(
        Curve::Circle(circle).approx_vertices(0, &mut out),
        Err(Error::InvalidTolerance)
    );
    assert_eq!(
        Curve::Circle(circle).approx_vertices(-5, &mut out),
        Err(Error::InvalidTolerance)
    );
    assert!(out.is_empty());
}

fn check_circle_sampling(radius: i64, tolerance: i64) {
    let circle = Circle::new(pt(0, 0, 0), radius).unwrap();
    let mut out = Vec::new();
    Curve::Circle(circle).approx_vertices(tolerance, &mut out).unwrap();
    assert!(out.len() >= 5);
    assert_eq!(out.first(), out.last(), "the loop must close");
    let r = radius as f64;
    for p in &out {
        let d = ((p.x as f64).powi(2) + (p.y as f64).powi(2)).sqrt();
        assert!(d <= r + 1e-9, "sample outside the circle");
        assert!(d > r - 2.0, "sample more than a unit inside");
        assert_eq!(p.z, 0);
    }
    for w in out.windows(2) {
        let (a, b) = (w[0], w[1]);
        assert!(a != b, "degenerate segment");
        let mx = (a.x as f64 + b.x as f64) / 2.0;
        let my = (a.y as f64 + b.y as f64) / 2.0;
        let sagitta = r - (mx * mx + my * my).sqrt();
        assert!(
            sagitta <= tolerance as f64,
            "sagitta {sagitta} exceeds tolerance {tolerance} at radius {radius}"
        );
    }
}

#[test]
fn circle_chord_error_stays_within_tolerance() {
    check_circle_sampling(10000, 100);
    check_circle_sampling(1000, 10);
    check_circle_sampling(50, 5);
    check_circle_sampling(2000000, 300);
}

#[test]
fn sweep_of_unit_square_profile() {
    // The profile is a unit square in hundredth units, swept by 2.0 units,
    // with a tolerance that approximates its boundary into 4 segments.
    let sw = Shape2d::Sketch(square(100)).sweep(200).unwrap();
    let node = Shape3d::Sweep(Box::new(sw));
    let bb = node.bounding_volume().unwrap();
    assert_eq!(bb.mins, pt(0, 0, 0));
    assert_eq!(bb.maxs, pt(100, 100, 200));
    let faces = node.faces(1).unwrap();
    assert_eq!(faces.0.len(), 3, "bottom faces + top faces + one side face");
    let Face::Triangles(bottom) = &faces.0[0];
    let Face::Triangles(top) = &faces.0[1];
    let Face::Triangles(side) = &faces.0[2];
    assert_eq!(bottom.len(), 2);
    assert_eq!(top.len(), 2);
    assert_eq!(side.len(), 8, "4 boundary segments, 2 triangles per quad");
    for t in top {
        assert!(t.a.z == 200 && t.b.z == 200 && t.c.z == 200);
    }
    for t in bottom {
        assert!(t.a.z == 0 && t.b.z == 0 && t.c.z == 0);
    }
    // The bottom cap is the profile's own face, winding flipped in place;
    // the top cap is the same face raised, winding unchanged.
    let profile_face = Shape2d::Sketch(square(100)).faces(1).unwrap();
    let Face::Triangles(profile) = &profile_face.0[0];
    for (b, p) in bottom.iter().zip(profile.iter()) {
        assert_eq!((b.a, b.b, b.c), (p.a, p.c, p.b));
    }
    for (t, p) in top.iter().zip(profile.iter()) {
        assert_eq!(t.a, pt(p.a.x, p.a.y, p.a.z + 200));
        assert_eq!(t.b, pt(p.b.x, p.b.y, p.b.z + 200));
        assert_eq!(t.c, pt(p.c.x, p.c.y, p.c.z + 200));
    }
}

fn check_sweep_containment(profile: Sketch, length: i64) {
    let sw = Shape2d::Sketch(profile).sweep(length).unwrap();
    let node = Shape3d::Sweep(Box::new(sw));
    let bb = node.bounding_volume().unwrap();
    assert_eq!(bb.maxs.z, length);
    let faces = node.faces(1).unwrap();
    for f in &faces.0 {
        let Face::Triangles(ts) = f;
        for t in ts {
            for p in [t.a, t.b, t.c] {
                assert!(bb.contains(p), "vertex {p:?} outside {bb:?}");
            }
        }
    }
}

#[test]
fn sweep_volume_contains_every_face_vertex() {
    // An asymmetric profile (the unit square) and a symmetric one.
    check_sweep_containment(square(100), 200);
    check_sweep_containment(centered_square(50), 120);
}

#[test]
fn sweep_edges_and_vertices_are_consistent_with_faces() {
    let sw = Shape2d::Sketch(square(100)).sweep(200).unwrap();
    let node = Shape3d::Sweep(Box::new(sw));
    let edges = node.edges().unwrap();
    // 4 bottom edges, 4 top edges, 4 vertical edges.
    assert_eq!(edges.0.len(), 12);
    let verts = node.vertices().unwrap();
    // 4 bottom corners and 4 top corners.
    assert_eq!(verts.len(), 8);
    assert!(verts.iter().filter(|p| p.z == 0).count() == 4);
    assert!(verts.iter().filter(|p| p.z == 200).count() == 4);
}

#[test]
fn swept_disc_has_chimera_free_side_face() {
    let circle = Circle::new(pt(0, 0, 0), 1000).unwrap();
    let sw = Shape2d::Circle(circle).sweep(500).unwrap();
    let node = Shape3d::Sweep(Box::new(sw));
    let faces = node.faces(10).unwrap();
    assert_eq!(faces.0.len(), 3);
    let Face::Triangles(side) = &faces.0[2];
    assert!(side.len() >= 8 && side.len() % 2 == 0);
    // A swept disc is a cylinder: no vertices, no vertical edges.
    assert_eq!(node.vertices().unwrap().len(), 0);
    assert_eq!(node.edges().unwrap().0.len(), 2);
}

#[test]
fn transform_bounding_volume_contains_all_rotated_corners() {
    // A scaled 45-degree rotation about z: (x, y) maps to (x - y, x + y).
    let m = Affine::new(1, -1, 0, 1, 1, 0, 0, 0, 1, 0, 0, 0).unwrap();
    let sw = Shape2d::Sketch(square(100)).sweep(100).unwrap();
    let inner = Shape3d::Sweep(Box::new(sw));
    let inner_bb = inner.bounding_volume().unwrap();
    let node = Shape3d::Transform(Box::new(Transform { shape: inner, matrix: m }));
    let bb = node.bounding_volume().unwrap();
    let mut naive_lo = [i64::MAX; 3];
    let mut naive_hi = [i64::MIN; 3];
    for p in [inner_bb.mins, inner_bb.maxs] {
        let q = m.apply(p).unwrap();
        for (i, v) in [q.x, q.y, q.z].into_iter().enumerate() {
            naive_lo[i] = naive_lo[i].min(v);
            naive_hi[i] = naive_hi[i].max(v);
        }
    }
    // All 8 corners of the inner box land inside the recomputed box.
    for i in 0..8 {
        let c = pt(
            if i % 2 == 1 { inner_bb.maxs.x } else { inner_bb.mins.x },
            if (i / 2) % 2 == 1 { inner_bb.maxs.y } else { inner_bb.mins.y },
            if (i / 4) % 2 == 1 { inner_bb.maxs.z } else { inner_bb.mins.z },
        );
        let q = m.apply(c).unwrap();
        assert!(bb.contains(q), "corner image {q:?} outside {bb:?}");
    }
    // The recomputed box strictly exceeds the naive min/max-corner box.
    assert!(bb.maxs.x > naive_hi[0] || bb.maxs.y > naive_hi[1] || bb.mins.x < naive_lo[0]);
}

#[test]
fn identity_transform_changes_nothing() {
    let sw = Shape2d::Sketch(square(100)).sweep(200).unwrap();
    let inner = Shape3d::Sweep(Box::new(sw));
    let expected_faces = inner.faces(1).unwrap();
    let expected_edges = inner.edges().unwrap();
    let expected_verts = inner.vertices().unwrap();
    let node = Shape3d::Transform(Box::new(Transform {
        shape: inner,
        matrix: Affine::identity(),
    }));
    assert_eq!(node.faces(1).unwrap(), expected_faces);
    assert_eq!(node.edges().unwrap(), expected_edges);
    assert_eq!(node.vertices().unwrap(), expected_verts);
}

fn normal(t: &fj_kernel::topology::Triangle) -> (i64, i64, i64) {
    let (ux, uy, uz) = (t.b.x - t.a.x, t.b.y - t.a.y, t.b.z - t.a.z);
    let (vx, vy, vz) = (t.c.x - t.a.x, t.c.y - t.a.y, t.c.z - t.a.z);
    (uy * vz - uz * vy, uz * vx - ux * vz, ux * vy - uy * vx)
}

#[test]
fn mirroring_flips_winding_and_preserves_outward_normals() {
    let sw = Shape2d::Sketch(square(100)).sweep(200).unwrap();
    let node = Shape3d::Sweep(Box::new(sw));
    let faces = node.faces(1).unwrap();
    // Mirror across the xy plane: negative determinant.
    let mirror = Affine::new(1, 0, 0, 0, 1, 0, 0, 0, -1, 0, 0, 0).unwrap();
    assert_eq!(mirror.det(), -1);
    let mirrored = faces.transform(&mirror).unwrap();
    for (f, g) in faces.0.iter().zip(mirrored.0.iter()) {
        let (Face::Triangles(ts), Face::Triangles(gs)) = (f, g);
        for (t, u) in ts.iter().zip(gs.iter()) {
            let (nx, ny, nz) = normal(t);
            let (mx, my, mz) = normal(u);
            // The normal is mirrored with the geometry, never inverted.
            assert_eq!((mx, my, mz), (nx, ny, -nz));
        }
    }
}

#[test]
fn translation_commutes_with_circle_sampling() {
    let circle = Circle::new(pt(0, 0, 0), 500).unwrap();
    let moved = circle.transform(&Affine::translation(30, -40, 7).unwrap()).unwrap();
    let mut sampled_then_moved = Vec::new();
    Curve::Circle(circle).approx_vertices(5, &mut sampled_then_moved).unwrap();
    for p in &mut sampled_then_moved {
        *p = pt(p.x + 30, p.y - 40, p.z + 7);
    }
    let mut moved_then_sampled = Vec::new();
    Curve::Circle(moved).approx_vertices(5, &mut moved_then_sampled).unwrap();
    assert_eq!(moved_then_sampled, sampled_then_moved);
}

#[test]
fn boolean_nodes_expose_their_capability_gap() {
    let a = Shape3d::Sweep(Box::new(Shape2d::Sketch(square(10)).sweep(10).unwrap()));
    let b = Shape3d::Sweep(Box::new(Shape2d::Sketch(square(20)).sweep(20).unwrap()));
    let a_bb = a.bounding_volume().unwrap();
    let b_bb = b.bounding_volume().unwrap();
    let diff = Shape3d::Difference(Box::new(a.difference(b)));
    assert_eq!(diff.faces(1), Err(Error::UnsupportedOperation));
    assert_eq!(diff.edges(), Err(Error::UnsupportedOperation));
    assert_eq!(diff.vertices(), Err(Error::UnsupportedOperation));
    // The difference is over-approximated by its first operand's box.
    assert_eq!(diff.bounding_volume().unwrap(), a_bb);
    let a2 = Shape3d::Sweep(Box::new(Shape2d::Sketch(square(10)).sweep(10).unwrap()));
    let b2 = Shape3d::Sweep(Box::new(Shape2d::Sketch(square(20)).sweep(20).unwrap()));
    let uni = Shape3d::Union(Box::new(a2.union(b2)));
    assert_eq!(uni.faces(1), Err(Error::UnsupportedOperation));
    let u_bb = uni.bounding_volume().unwrap();
    assert_eq!(u_bb, Aabb { mins: b_bb.mins, maxs: b_bb.maxs });
}

#[test]
fn degenerate_inputs_are_rejected() {
    let two: Vec<(i64, i64)> = vec![(0, 0), (1, 1)];
    assert_eq!(two.sketch().unwrap_err(), Error::DegenerateGeometry);
    assert_eq!(Circle::new(pt(0, 0, 0), 0).unwrap_err(), Error::DegenerateGeometry);
    assert_eq!(
        Shape2d::Sketch(square(5)).sweep(0).unwrap_err(),
        Error::DegenerateGeometry
    );
    let squash = Affine::new(1, 0, 0, 0, 1, 0, 0, 0, 0, 0, 0, 0).unwrap();
    let faces = Shape3d::Sweep(Box::new(Shape2d::Sketch(square(5)).sweep(5).unwrap()))
        .faces(1)
        .unwrap();
    assert_eq!(faces.transform(&squash).unwrap_err(), Error::DegenerateGeometry);
}

#[test]
fn out_of_range_inputs_are_rejected_as_overflow() {
    assert!(Affine::new(1 << 21, 0, 0, 0, 1, 0, 0, 0, 1, 0, 0, 0).is_none());
    let far: Vec<(i64, i64)> = vec![(0, 0), (i64::MAX, 0), (0, 1)];
    assert_eq!(far.sketch().unwrap_err(), Error::NumericOverflow);
    assert_eq!(Circle::new(pt(0, 0, 0), i64::MAX).unwrap_err(), Error::NumericOverflow);
    assert_eq!(
        Shape2d::Sketch(square(5)).sweep(i64::MAX).unwrap_err(),
        Error::NumericOverflow
    );
}

#[test]
fn translate_builder_produces_the_stated_matrix() {
    let sw = Shape2d::Sketch(square(10)).sweep(10).unwrap();
    let node = Shape3d::Sweep(Box::new(sw));
    let tr = node.translate((5, 6, 7)).unwrap();
    let moved = Shape3d::Transform(Box::new(tr));
    let bb = moved.bounding_volume().unwrap();
    assert_eq!(bb.mins, pt(5, 6, 7));
    assert_eq!(bb.maxs, pt(15, 16, 17));
}

#[test]
fn mesh_buffers_flatten_every_triangle() {
    let sw = Shape2d::Sketch(square(100)).sweep(200).unwrap();
    let faces = Shape3d::Sweep(Box::new(sw)).faces(1).unwrap();
    let (verts, idx) = faces.mesh_buffers();
    // 2 + 2 + 8 triangles, three corners each.
    assert_eq!(verts.len(), 36);
    assert_eq!(idx.len(), 36);
    for (i, v) in idx.iter().enumerate() {
        assert_eq!(*v, i);
    }
}

#[test]
fn tolerance_is_validated_at_every_evaluation_entry() {
    let sw = Shape2d::Sketch(square(10)).sweep(10).unwrap();
    let node = Shape3d::Sweep(Box::new(sw));
    assert_eq!(node.faces(0), Err(Error::InvalidTolerance));
    assert_eq!(node.faces(-3), Err(Error::InvalidTolerance));
    assert!(node.faces(1).is_ok());
}

#[test]
fn quarter_turn_carries_circle_samples_to_circle_samples() {
    // A quarter turn about z is rigid; it reorders the sample loop but
    // keeps the set of samples.
    let circle = Circle::new(pt(0, 0, 0), 300).unwrap();
    let rot = rot90_z_translate(0, 0, 0);
    let turned = circle.transform(&rot).unwrap();
    assert_eq!(turned.radius, 300);
    assert_eq!(turned.center, pt(0, 0, 0));
    let mut original = Vec::new();
    Curve::Circle(circle).approx_vertices(3, &mut original).unwrap();
    let mut of_turned = Vec::new();
    Curve::Circle(turned).approx_vertices(3, &mut of_turned).unwrap();
    let mut rotated: Vec<Point> =
        original.iter().map(|p| pt(-p.y, p.x, p.z)).collect();
    let mut got = of_turned.clone();
    rotated.sort_by_key(|p| (p.x, p.y, p.z));
    rotated.dedup();
    got.sort_by_key(|p| (p.x, p.y, p.z));
    got.dedup();
    assert_eq!(got, rotated);
}

#[test]
fn swept_disc_bounding_volume() {
    let circle = Circle::new(pt(0, 0, 0), 700).unwrap();
    let sw = Shape2d::Circle(circle).sweep(900).unwrap();
    let node = Shape3d::Sweep(Box::new(sw));
    let bb = node.bounding_volume().unwrap();
    assert_eq!(bb.mins, pt(-700, -700, 0));
    assert_eq!(bb.maxs, pt(700, 700, 900));
}

#[test]
fn approx_segments_walks_edges_in_order() {
    let sk = square(10);
    let edges = Shape2d::Sketch(sk).edges();
    let mut segs = Vec::new();
    edges.approx_segments(1, &mut segs).unwrap();
    assert_eq!(segs.len(), 4);
    assert_eq!((segs[0].a, segs[0].b), (pt(0, 0, 0), pt(10, 0, 0)));
    assert_eq!((segs[3].a, segs[3].b), (pt(0, 10, 0), pt(0, 0, 0)));
    // Each segment starts where the previous one ended.
    for w in segs.windows(2) {
        assert_eq!(w[0].b, w[1].a);
    }
    let mut bad = Vec::new();
    assert_eq!(edges.approx_segments(0, &mut bad), Err(Error::InvalidTolerance));
    assert!(bad.is_empty());
}

#[test]
fn circle_sampling_densifies_as_tolerance_shrinks() {
    let circle = Circle::new(pt(0, 0, 0), 1000).unwrap();
    let mut coarse = Vec::new();
    Curve::Circle(circle).approx_vertices(50, &mut coarse).unwrap();
    let mut fine = Vec::new();
    Curve::Circle(circle).approx_vertices(5, &mut fine).unwrap();
    assert!(fine.len() >= coarse.len());
}

#[test]
fn quarter_rotation_matrices_are_exact() {
    // A full turn about any axis is the identity.
    for axis in 0..3u8 {
        assert_eq!(Affine::quarter_rotation(axis, 4), Affine::identity());
        assert_eq!(Affine::quarter_rotation(axis, 1).det(), 1);
    }
    // A quarter turn about z maps (1, 0, 0) to (0, 1, 0).
    let m = Affine::quarter_rotation(2, 1);
    assert_eq!(m.apply(pt(1, 0, 0)).unwrap(), pt(0, 1, 0));
}
