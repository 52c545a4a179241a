use section_builder_v2::geometry::mesh::{MeshPoint, mesh, straight_piece_count};
use section_builder_v2::geometry::rounding::{
    Corner, PolyPoint, Vertex, arc_piece_count, round_polyline,
};
use section_builder_v2::geometry::{is_valid_section_input, points_from_interleaved};
use section_builder_v2::{Vec2, section_plan, to_cufsm_model};

fn given(x: f64, y: f64) -> MeshPoint<PolyPoint<Vec2<f64>>> {
    MeshPoint::At(PolyPoint::Given(Vec2::new(x, y)))
}

#[test]
fn vec2_new_holds_coordinates() {
    let v = Vec2::new(1.5, -2.0);
    assert_eq!(v.x, 1.5);
    assert_eq!(v.y, -2.0);
}

#[test]
fn vertex_point_and_kind() {
    let s = Vertex::Straight(3u32);
    let b = Vertex::ArcStart(5u32);
    let a = Vertex::Arc(4u32);
    assert_eq!(s.point(), 3);
    assert_eq!(b.point(), 5);
    assert_eq!(a.point(), 4);
    assert!(s.opens_straight() && s.closes_straight());
    assert!(!b.opens_straight() && b.closes_straight());
    assert!(!a.opens_straight() && !a.closes_straight());
}

#[test]
fn arc_piece_count_takes_largest() {
    assert_eq!(arc_piece_count(4, 1), 4);
    assert_eq!(arc_piece_count(2, 6), 6);
    assert_eq!(arc_piece_count(0, 0), 1);
    assert_eq!(arc_piece_count(8, 8), 8);
}

#[test]
fn straight_piece_count_is_at_least_two() {
    assert_eq!(straight_piece_count(0), 2);
    assert_eq!(straight_piece_count(1), 2);
    assert_eq!(straight_piece_count(2), 2);
    assert_eq!(straight_piece_count(5), 5);
}

#[test]
fn valid_input_needs_two_points_and_a_piece() {
    assert!(is_valid_section_input(2, 1));
    assert!(is_valid_section_input(16, 4));
    assert!(!is_valid_section_input(1, 4));
    assert!(!is_valid_section_input(0, 4));
    assert!(!is_valid_section_input(3, 0));
}

#[test]
fn interleaved_coordinates_pair_up() {
    let pts = points_from_interleaved(&[0.0, 1.0, 2.0, 3.0, 4.0, 5.0]);
    assert_eq!(pts, vec![Vec2::new(0.0, 1.0), Vec2::new(2.0, 3.0), Vec2::new(4.0, 5.0)]);
    let odd = points_from_interleaved(&[7, 8, 9]);
    assert_eq!(odd, vec![Vec2::new(7, 8)]);
    let none: Vec<Vec2<i32>> = points_from_interleaved(&[]);
    assert!(none.is_empty());
}

#[test]
fn sharp_corner_keeps_vertex() {
    let pts = [10u32, 20, 30];
    let out = round_polyline(&pts, &[Corner::Sharp], 4);
    assert_eq!(
        out,
        vec![
            Vertex::Straight(PolyPoint::Given(10)),
            Vertex::Straight(PolyPoint::Given(20)),
            Vertex::Straight(PolyPoint::Given(30)),
        ]
    );
}

#[test]
fn rounded_corner_becomes_anchors_and_arc_points() {
    let pts = [1u32, 2, 3];
    let corners = [Corner::Rounded { start: 11, end: 12, n_by_angle: 4 }];
    let out = round_polyline(&pts, &corners, 1);
    assert_eq!(
        out,
        vec![
            Vertex::Straight(PolyPoint::Given(1)),
            Vertex::ArcStart(PolyPoint::Given(11)),
            Vertex::Arc(PolyPoint::OnArc { corner: 0, k: 1, n: 4 }),
            Vertex::Arc(PolyPoint::OnArc { corner: 0, k: 2, n: 4 }),
            Vertex::Arc(PolyPoint::OnArc { corner: 0, k: 3, n: 4 }),
            Vertex::Straight(PolyPoint::Given(12)),
            Vertex::Straight(PolyPoint::Given(3)),
        ]
    );
}

#[test]
fn arc_follows_elements_per_segment_when_finer() {
    let pts = [1u32, 2, 3];
    let corners = [Corner::Rounded { start: 11, end: 12, n_by_angle: 2 }];
    let out = round_polyline(&pts, &corners, 3);
    assert_eq!(out.len(), 2 + 3 + 1);
    assert_eq!(out[3], Vertex::Arc(PolyPoint::OnArc { corner: 0, k: 2, n: 3 }));
}

#[test]
fn second_corner_is_numbered_one() {
    let pts = [0u32, 1, 2, 3];
    let corners = [Corner::Sharp, Corner::Rounded { start: 21, end: 22, n_by_angle: 2 }];
    let out = round_polyline(&pts, &corners, 1);
    assert_eq!(out.len(), 2 + 1 + 3);
    assert_eq!(out[1], Vertex::Straight(PolyPoint::Given(1)));
    assert_eq!(out[3], Vertex::Arc(PolyPoint::OnArc { corner: 1, k: 1, n: 2 }));
    assert_eq!(out[5], Vertex::Straight(PolyPoint::Given(3)));
}

#[test]
fn mesh_subdivides_straight_runs_only() {
    let vs = [
        Vertex::Straight(0u32),
        Vertex::Straight(1),
        Vertex::Arc(2),
        Vertex::Straight(3),
        Vertex::Straight(4),
    ];
    let out = mesh(&vs, 3);
    assert_eq!(
        out,
        vec![
            MeshPoint::At(0),
            MeshPoint::Between { from: 0, to: 1, k: 1, n: 3 },
            MeshPoint::Between { from: 0, to: 1, k: 2, n: 3 },
            MeshPoint::At(1),
            MeshPoint::At(2),
            MeshPoint::At(3),
            MeshPoint::Between { from: 3, to: 4, k: 1, n: 3 },
            MeshPoint::Between { from: 3, to: 4, k: 2, n: 3 },
            MeshPoint::At(4),
        ]
    );
}

#[test]
fn one_piece_arc_is_not_subdivided() {
    // A shallow bend asks for one piece only: the arc joins its two anchors
    // directly, while the straight runs on either side are split in two.
    let pts = [0u32, 1, 2];
    let corners = [Corner::Rounded { start: 10, end: 20, n_by_angle: 1 }];
    let plan = section_plan(&pts, &corners, 1);
    assert_eq!(
        plan,
        vec![
            MeshPoint::At(PolyPoint::Given(0)),
            MeshPoint::Between { from: PolyPoint::Given(0), to: PolyPoint::Given(10), k: 1, n: 2 },
            MeshPoint::At(PolyPoint::Given(10)),
            MeshPoint::At(PolyPoint::Given(20)),
            MeshPoint::Between { from: PolyPoint::Given(20), to: PolyPoint::Given(2), k: 1, n: 2 },
            MeshPoint::At(PolyPoint::Given(2)),
        ]
    );
}

#[test]
fn arc_start_stretch_is_part_of_arc() {
    let vs = [Vertex::Straight(0u8), Vertex::ArcStart(1), Vertex::Straight(2)];
    let out = mesh(&vs, 2);
    assert_eq!(
        out,
        vec![
            MeshPoint::At(0),
            MeshPoint::Between { from: 0, to: 1, k: 1, n: 2 },
            MeshPoint::At(1),
            MeshPoint::At(2),
        ]
    );
}

#[test]
fn mesh_of_single_vertex() {
    let out = mesh(&[Vertex::Arc(9u8)], 4);
    assert_eq!(out, vec![MeshPoint::At(9)]);
}

#[test]
fn mesh_splits_into_two_at_least() {
    let out = mesh(&[Vertex::Straight(0u8), Vertex::Straight(1)], 1);
    assert_eq!(out.len(), 3);
    assert_eq!(out[1], MeshPoint::Between { from: 0, to: 1, k: 1, n: 2 });
}

#[test]
fn straight_line_plan() {
    // A single straight segment of length 10 split into 5 pieces: 6 points,
    // the fourth at 3/5 of the way.
    let pts = [Vec2::new(0.0, 0.0), Vec2::new(10.0, 0.0)];
    let plan = section_plan(&pts, &[], 5);
    assert_eq!(plan.len(), 6);
    assert_eq!(plan[0], given(0.0, 0.0));
    assert_eq!(
        plan[3],
        MeshPoint::Between {
            from: PolyPoint::Given(Vec2::new(0.0, 0.0)),
            to: PolyPoint::Given(Vec2::new(10.0, 0.0)),
            k: 3,
            n: 5,
        }
    );
    assert_eq!(plan[5], given(10.0, 0.0));
}

#[test]
fn right_angle_plan_keeps_arc_anchors() {
    // L shape with one 90 degree bend; r = 1 trims each edge by 1.
    let pts = [Vec2::new(0.0, 0.0), Vec2::new(5.0, 0.0), Vec2::new(5.0, 5.0)];
    let corners = [Corner::Rounded {
        start: Vec2::new(4.0, 0.0),
        end: Vec2::new(5.0, 1.0),
        n_by_angle: 4,
    }];
    let plan = section_plan(&pts, &corners, 1);
    assert!(plan.contains(&given(4.0, 0.0)));
    assert!(plan.contains(&given(5.0, 1.0)));
    // 3 points per straight run (2 runs), 3 interior arc points.
    assert_eq!(plan.len(), 9);
    let on_arc = plan
        .iter()
        .filter(|p| matches!(p, MeshPoint::At(PolyPoint::OnArc { corner: 0, n: 4, .. })))
        .count();
    assert_eq!(on_arc, 3);
    assert_eq!(plan[0], given(0.0, 0.0));
    assert_eq!(plan[8], given(5.0, 5.0));
}

#[test]
fn cee_like_plan_topology() {
    let h = 8.0;
    let b = 2.0;
    let d = 0.5;
    let pts = [
        Vec2::new(b, h / 2.0),
        Vec2::new(b, h / 2.0 - d),
        Vec2::new(0.0, h / 2.0 - d),
        Vec2::new(0.0, -h / 2.0 + d),
        Vec2::new(b, -h / 2.0 + d),
        Vec2::new(b, -h / 2.0),
    ];
    let corner = |x: f64, y: f64| Corner::Rounded {
        start: Vec2::new(x, y),
        end: Vec2::new(x, y),
        n_by_angle: 4,
    };
    let corners = [corner(2.0, 3.75), corner(0.25, 3.5), corner(0.0, -3.25), corner(1.75, -3.5)];
    let plan = section_plan(&pts, &corners, 4);
    // 5 straight runs of 4 pieces, 4 arcs of 4 pieces.
    assert_eq!(plan.len(), 1 + 5 * 4 + 4 * 4);
    let located: Vec<Vec2<f64>> = (0..plan.len()).map(|i| Vec2::new(i as f64, 0.0)).collect();
    let m = to_cufsm_model(&located, 0.06, 0.0);
    assert_eq!(m.nodes.len(), plan.len());
    assert_eq!(m.elements.len(), m.nodes.len() - 1);
    for w in m.nodes.windows(2) {
        assert_eq!(w[1].id, w[0].id + 1);
    }
}

#[test]
fn model_rows_follow_points() {
    let pts = [Vec2::new(0.0, 0.0), Vec2::new(2.0, 0.0), Vec2::new(4.0, 1.0)];
    let m = to_cufsm_model(&pts, 0.1, 0.0);
    assert_eq!(m.nodes.len(), 3);
    assert_eq!(m.elements.len(), 2);
    for (i, n) in m.nodes.iter().enumerate() {
        assert_eq!(n.id, i + 1);
        assert_eq!(n.x, pts[i].x);
        assert_eq!(n.y, pts[i].y);
        assert_eq!((n.xdof, n.ydof, n.zdof, n.qdof), (1, 1, 1, 1));
        assert_eq!(n.stress, 0.0);
    }
    for (i, e) in m.elements.iter().enumerate() {
        assert_eq!(e.id, i + 1);
        assert_eq!(e.node_i, i + 1);
        assert_eq!(e.node_j, i + 2);
        assert_eq!(e.thickness, 0.1);
        assert_eq!(e.material, 100);
    }
}

#[test]
fn model_of_no_or_one_point() {
    let empty: [Vec2<f64>; 0] = [];
    let m = to_cufsm_model(&empty, 1.0, 0.0);
    assert!(m.nodes.is_empty());
    assert!(m.elements.is_empty());
    let m1 = to_cufsm_model(&[Vec2::new(3.0, 4.0)], 1.0, 0.5);
    assert_eq!(m1.nodes.len(), 1);
    assert_eq!(m1.nodes[0].stress, 0.5);
    assert!(m1.elements.is_empty());
}

#[test]
fn sharp_section_node_count() {
    // Three edges, no rounding, 3 pieces each: 1 + 3 * 3 nodes.
    let pts = [0u8, 1, 2, 3];
    let plan = section_plan(&pts, &[Corner::Sharp, Corner::Sharp], 3);
    assert_eq!(plan.len(), 10);
    assert_eq!(plan[0], MeshPoint::At(PolyPoint::Given(0)));
    assert_eq!(plan[9], MeshPoint::At(PolyPoint::Given(3)));
}

fn mirror_poly(n_corners: usize, q: PolyPoint<u32>) -> PolyPoint<u32> {
    match q {
        PolyPoint::Given(p) => PolyPoint::Given(p),
        PolyPoint::OnArc { corner, k, n } => PolyPoint::OnArc { corner: n_corners - 1 - corner, k: n - k, n },
    }
}

fn mirror_mesh(n_corners: usize, mp: MeshPoint<PolyPoint<u32>>) -> MeshPoint<PolyPoint<u32>> {
    match mp {
        MeshPoint::At(q) => MeshPoint::At(mirror_poly(n_corners, q)),
        MeshPoint::Between { from, to, k, n } => MeshPoint::Between {
            from: mirror_poly(n_corners, to),
            to: mirror_poly(n_corners, from),
            k: n - k,
            n,
        },
    }
}

#[test]
fn reversed_section_gives_reversed_plan() {
    let pts = [0u32, 1, 2, 3, 4];
    let corners = [
        Corner::Rounded { start: 10, end: 11, n_by_angle: 4 },
        Corner::Sharp,
        Corner::Rounded { start: 30, end: 31, n_by_angle: 1 },
    ];
    let plan = section_plan(&pts, &corners, 3);

    let rev_pts: Vec<u32> = pts.iter().rev().copied().collect();
    let rev_corners: Vec<Corner<u32>> = corners
        .iter()
        .rev()
        .map(|c| match *c {
            Corner::Sharp => Corner::Sharp,
            Corner::Rounded { start, end, n_by_angle } => {
                Corner::Rounded { start: end, end: start, n_by_angle }
            }
        })
        .collect();
    let rev_plan = section_plan(&rev_pts, &rev_corners, 3);

    let expected: Vec<_> = plan.iter().rev().map(|mp| mirror_mesh(3, *mp)).collect();
    assert_eq!(rev_plan, expected);
}

#[test]
fn mapped_section_gives_mapped_plan() {
    // Mirror every point (negate y); the plan mirrors point for point.
    let mirror = |p: Vec2<i64>| Vec2::new(p.x, -p.y);
    let pts = [Vec2::new(0i64, 0), Vec2::new(5, 0), Vec2::new(5, 5)];
    let corners = [Corner::Rounded { start: Vec2::new(4, 0), end: Vec2::new(5, 1), n_by_angle: 4 }];
    let plan = section_plan(&pts, &corners, 2);

    let m_pts: Vec<Vec2<i64>> = pts.iter().map(|p| mirror(*p)).collect();
    let m_corners = [Corner::Rounded { start: mirror(Vec2::new(4, 0)), end: mirror(Vec2::new(5, 1)), n_by_angle: 4 }];
    let m_plan = section_plan(&m_pts, &m_corners, 2);

    let map_poly = |q: PolyPoint<Vec2<i64>>| match q {
        PolyPoint::Given(p) => PolyPoint::Given(mirror(p)),
        other => other,
    };
    let expected: Vec<_> = plan
        .iter()
        .map(|mp| match *mp {
            MeshPoint::At(q) => MeshPoint::At(map_poly(q)),
            MeshPoint::Between { from, to, k, n } => {
                MeshPoint::Between { from: map_poly(from), to: map_poly(to), k, n }
            }
        })
        .collect();
    assert_eq!(m_plan, expected);
}
