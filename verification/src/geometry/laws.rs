//! What holds of every rounded and meshed polyline.
use vstd::prelude::*;

use super::mesh::{MeshPoint, mesh_prefix, mesh_step, meshed, straight_pieces};
use super::planned;
use super::rounding::{
    Corner,
    PolyPoint,
    Vertex,
    arc_pieces,
    corner_vertices,
    rounded_polyline,
    is_straight_run,
    rounded_prefix,
};

verus! {

/// Number of vertices corner `j` contributes to the rounded polyline: one for
/// a sharp corner, `n_arc + 1` for a rounded one (its two anchors and the
/// `n_arc - 1` interior arc points).
pub open spec fn corner_vertex_count<P>(
    corners: Seq<Corner<P>>,
    j: int,
    elements_per_segment: usize,
) -> nat {
    match corners[j] {
        Corner::Sharp => 1,
        Corner::Rounded { n_by_angle, .. } => (arc_pieces(n_by_angle, elements_per_segment) + 1) as nat,
    }
}

/// Total number of vertices the first `m` corners contribute.
pub open spec fn corners_vertex_count<P>(
    corners: Seq<Corner<P>>,
    m: int,
    elements_per_segment: usize,
) -> nat
    decreases m,
{
    if m <= 0 {
        0
    } else {
        corners_vertex_count(corners, m - 1, elements_per_segment) + corner_vertex_count(
            corners,
            m - 1,
            elements_per_segment,
        )
    }
}

/// Number of straight runs among the first `m` vertices: consecutive pairs of
/// vertices joined by a straight stretch.
pub open spec fn straight_runs<P>(vs: Seq<Vertex<P>>, m: int) -> nat
    decreases m,
{
    if m <= 1 {
        0
    } else {
        straight_runs(vs, m - 1) + if is_straight_run(vs[m - 2], vs[m - 1]) {
            1nat
        } else {
            0nat
        }
    }
}

/// Every prefix of the rounded polyline starts at the first point, as a
/// straight anchor.
pub proof fn lemma_rounded_prefix_first<P>(
    points: Seq<P>,
    corners: Seq<Corner<P>>,
    elements_per_segment: usize,
    m: int,
)
    ensures
        rounded_prefix(points, corners, elements_per_segment, m).len() >= 1,
        rounded_prefix(points, corners, elements_per_segment, m)[0] == Vertex::Straight(
            PolyPoint::Given(points[0]),
        ),
    decreases m,
{
    if m > 0 {
        lemma_rounded_prefix_first(points, corners, elements_per_segment, m - 1);
    }
}

/// The rounded polyline starts with the first point and ends with the last
/// one, both as straight anchors: the endpoints of the section stay sharp.
pub proof fn lemma_rounded_starts_with_first<P>(
    points: Seq<P>,
    corners: Seq<Corner<P>>,
    elements_per_segment: usize,
)
    ensures
        rounded_polyline(points, corners, elements_per_segment).len() >= 2,
        rounded_polyline(points, corners, elements_per_segment)[0] == Vertex::Straight(
            PolyPoint::Given(points[0]),
        ),
        rounded_polyline(points, corners, elements_per_segment).last() == Vertex::Straight(
            PolyPoint::Given(points.last()),
        ),
{
    lemma_rounded_prefix_first(points, corners, elements_per_segment, corners.len() as int);
}

/// The number of vertices of a prefix of the rounded polyline.
pub proof fn lemma_rounded_prefix_len<P>(
    points: Seq<P>,
    corners: Seq<Corner<P>>,
    elements_per_segment: usize,
    m: int,
)
    requires
        0 <= m <= corners.len(),
    ensures
        rounded_prefix(points, corners, elements_per_segment, m).len() == 1
            + corners_vertex_count(corners, m, elements_per_segment),
    decreases m,
{
    if m > 0 {
        lemma_rounded_prefix_len(points, corners, elements_per_segment, m - 1);
        assert(corner_vertices(points, corners, m - 1, elements_per_segment).len()
            == corner_vertex_count(corners, m - 1, elements_per_segment));
    }
}

/// The rounded polyline has the two endpoints, one vertex per sharp corner,
/// and `n_arc + 1` vertices per rounded corner, where
/// `n_arc = max(n_by_angle, elements_per_segment, 1)`.
pub proof fn lemma_rounded_len<P>(
    points: Seq<P>,
    corners: Seq<Corner<P>>,
    elements_per_segment: usize,
)
    ensures
        rounded_polyline(points, corners, elements_per_segment).len() == 2 + corners_vertex_count(
            corners,
            corners.len() as int,
            elements_per_segment,
        ),
{
    lemma_rounded_prefix_len(points, corners, elements_per_segment, corners.len() as int);
}

/// A rounded corner is split into `n_arc` pieces, at least as many as its
/// bend angle asks for (at least 4 per 90 degrees), at least
/// `elements_per_segment`, and at least one: its part of the rounded polyline
/// is its start anchor, the arc points at fractions `k / n_arc` for
/// `0 < k < n_arc`, and its end anchor.
pub proof fn lemma_rounded_corner_pieces<P>(
    points: Seq<P>,
    corners: Seq<Corner<P>>,
    j: int,
    elements_per_segment: usize,
)
    requires
        0 <= j < corners.len(),
        corners[j] is Rounded,
    ensures
        ({
            let n_arc = arc_pieces(corners[j]->n_by_angle, elements_per_segment);
            let vs = corner_vertices(points, corners, j, elements_per_segment);
            &&& n_arc >= corners[j]->n_by_angle
            &&& n_arc >= elements_per_segment
            &&& n_arc >= 1
            &&& vs.len() == n_arc + 1
            &&& vs[0] == Vertex::ArcStart(PolyPoint::Given(corners[j]->start))
            &&& vs[n_arc as int] == Vertex::Straight(PolyPoint::Given(corners[j]->end))
            &&& forall|k: int|
                0 < k < n_arc ==> #[trigger] vs[k] == Vertex::<PolyPoint<P>>::Arc(
                    PolyPoint::OnArc { corner: j as usize, k: k as usize, n: n_arc },
                )
        }),
{
}

/// Every prefix of the meshed polyline starts at the first vertex and ends at
/// the last vertex of that prefix.
pub proof fn lemma_mesh_prefix_ends<P>(vs: Seq<Vertex<P>>, n: usize, m: int)
    requires
        1 <= m <= vs.len(),
    ensures
        mesh_prefix(vs, n, m).len() >= 1,
        mesh_prefix(vs, n, m)[0] == MeshPoint::At(vs[0].spec_point()),
        mesh_prefix(vs, n, m).last() == MeshPoint::At(vs[m - 1].spec_point()),
    decreases m,
{
    if m > 1 {
        lemma_mesh_prefix_ends(vs, n, m - 1);
        let step = mesh_step(vs[m - 2], vs[m - 1], n);
        assert(step.len() >= 1);
        assert(step.last() == MeshPoint::At(vs[m - 1].spec_point()));
    }
}

/// The number of points of a prefix of the meshed polyline: its vertices,
/// plus `n - 1` interpolation points per straight run.
pub proof fn lemma_mesh_prefix_len<P>(vs: Seq<Vertex<P>>, n: usize, m: int)
    requires
        1 <= m <= vs.len(),
        n >= 1,
    ensures
        mesh_prefix(vs, n, m).len() == m + (n - 1) * straight_runs(vs, m),
    decreases m,
{
    if m > 1 {
        lemma_mesh_prefix_len(vs, n, m - 1);
        let r = straight_runs(vs, m - 1);
        let k: int = n - 1;
        let step = mesh_step(vs[m - 2], vs[m - 1], n);
        if is_straight_run(vs[m - 2], vs[m - 1]) {
            assert(step.len() == k + 1);
            assert(straight_runs(vs, m) == r + 1);
            assert(k * (r + 1) == k * r + k) by (nonlinear_arith);
        } else {
            assert(step.len() == 1);
            assert(straight_runs(vs, m) == r);
        }
        assert(mesh_prefix(vs, n, m).len() == mesh_prefix(vs, n, m - 1).len() + step.len());
    } else {
        let r = straight_runs(vs, m);
        assert(r == 0);
        assert((n - 1) * r == 0) by (nonlinear_arith)
            requires
                r == 0,
        ;
    }
}

/// Meshing keeps the endpoints, and adds exactly
/// `max(2, elements_per_segment) - 1` interpolation points per straight run:
/// every straight run becomes `max(2, elements_per_segment)` pieces, and the
/// stretches of arcs are not subdivided.
pub proof fn lemma_meshed_shape<P>(vs: Seq<Vertex<P>>, elements_per_segment: usize)
    requires
        vs.len() >= 1,
    ensures
        meshed(vs, elements_per_segment)[0] == MeshPoint::At(vs[0].spec_point()),
        meshed(vs, elements_per_segment).last() == MeshPoint::At(vs.last().spec_point()),
        meshed(vs, elements_per_segment).len() == vs.len() + (straight_pieces(elements_per_segment)
            - 1) * straight_runs(vs, vs.len() as int),
{
    let n = straight_pieces(elements_per_segment);
    lemma_mesh_prefix_ends(vs, n, vs.len() as int);
    lemma_mesh_prefix_len(vs, n, vs.len() as int);
}

/// Where vertex `i` of the rounded polyline lands in its meshed form.
pub open spec fn mesh_position<P>(vs: Seq<Vertex<P>>, n: usize, i: int) -> int {
    mesh_prefix(vs, n, i + 1).len() - 1
}

/// A longer prefix of the meshed polyline extends a shorter one.
proof fn lemma_mesh_prefix_extends<P>(vs: Seq<Vertex<P>>, n: usize, m: int, m2: int)
    requires
        1 <= m <= m2 <= vs.len(),
    ensures
        mesh_prefix(vs, n, m).len() <= mesh_prefix(vs, n, m2).len(),
        mesh_prefix(vs, n, m2).subrange(0, mesh_prefix(vs, n, m).len() as int) == mesh_prefix(
            vs,
            n,
            m,
        ),
    decreases m2,
{
    if m2 > m {
        lemma_mesh_prefix_extends(vs, n, m, m2 - 1);
        let short = mesh_prefix(vs, n, m);
        let mid = mesh_prefix(vs, n, m2 - 1);
        let long = mesh_prefix(vs, n, m2);
        assert(long == mid + mesh_step(vs[m2 - 2], vs[m2 - 1], n));
        assert(long.subrange(0, short.len() as int) =~= mid.subrange(0, short.len() as int));
    } else {
        assert(mesh_prefix(vs, n, m2).subrange(0, mesh_prefix(vs, n, m).len() as int)
            =~= mesh_prefix(vs, n, m));
    }
}

/// Meshing keeps every vertex of the rounded polyline, in order: vertex `i`
/// is the point at `mesh_position(i)`, and between the positions of two
/// consecutive vertices lie exactly `max(2, elements_per_segment) - 1`
/// interpolation points when the stretch between them is a straight run, and
/// none otherwise. So arc points are passed through, and only straight runs
/// are subdivided.
pub proof fn lemma_mesh_keeps_vertices<P>(vs: Seq<Vertex<P>>, elements_per_segment: usize)
    requires
        vs.len() >= 1,
    ensures
        forall|i: int|
            0 <= i < vs.len() ==> {
                &&& 0 <= #[trigger] mesh_position(vs, straight_pieces(elements_per_segment), i)
                    < meshed(vs, elements_per_segment).len()
                &&& meshed(vs, elements_per_segment)[mesh_position(
                    vs,
                    straight_pieces(elements_per_segment),
                    i,
                )] == MeshPoint::At(vs[i].spec_point())
            },
        forall|i: int|
            1 <= i < vs.len() ==> #[trigger] mesh_position(
                vs,
                straight_pieces(elements_per_segment),
                i,
            ) - mesh_position(vs, straight_pieces(elements_per_segment), i - 1) == if is_straight_run(vs[i
                - 1], vs[i]) {
                straight_pieces(elements_per_segment) as int
            } else {
                1
            },
{
    let n = straight_pieces(elements_per_segment);
    let len = vs.len() as int;
    assert forall|i: int| 0 <= i < len implies {
        &&& 0 <= #[trigger] mesh_position(vs, n, i) < meshed(vs, elements_per_segment).len()
        &&& meshed(vs, elements_per_segment)[mesh_position(vs, n, i)] == MeshPoint::At(
            vs[i].spec_point(),
        )
    } by {
        lemma_mesh_prefix_ends(vs, n, i + 1);
        lemma_mesh_prefix_extends(vs, n, i + 1, len);
        let short = mesh_prefix(vs, n, i + 1);
        assert(meshed(vs, elements_per_segment).subrange(0, short.len() as int)[short.len() - 1]
            == short.last());
    }
    assert forall|i: int| 1 <= i < len implies #[trigger] mesh_position(vs, n, i) - mesh_position(
        vs,
        n,
        i - 1,
    ) == if is_straight_run(vs[i - 1], vs[i]) {
        n as int
    } else {
        1
    } by {
        let step = mesh_step(vs[i - 1], vs[i], n);
        assert(mesh_prefix(vs, n, i + 1) == mesh_prefix(vs, n, i) + step);
        if is_straight_run(vs[i - 1], vs[i]) {
            assert(step.len() == n);
        } else {
            assert(step.len() == 1);
        }
    }
}

/// The finite-strip model of a section starts at the first point and ends at
/// the last point of the sharp-corner polyline: the polyline is open and its
/// endpoints stay sharp.
pub proof fn lemma_plan_endpoints<P>(
    points: Seq<P>,
    corners: Seq<Corner<P>>,
    elements_per_segment: usize,
)
    requires
        points.len() >= 2,
        corners.len() + 2 == points.len(),
    ensures
        planned(points, corners, elements_per_segment)[0] == MeshPoint::At(
            PolyPoint::Given(points[0]),
        ),
        planned(points, corners, elements_per_segment).last() == MeshPoint::At(
            PolyPoint::Given(points.last()),
        ),
{
    let vs = rounded_polyline(points, corners, elements_per_segment);
    lemma_rounded_starts_with_first(points, corners, elements_per_segment);
    lemma_meshed_shape(vs, elements_per_segment);
}

/// With every corner sharp, the rounded polyline is the input polyline itself,
/// all of it straight: vertex `i` is the straight anchor at `points[i]`.
pub proof fn lemma_all_sharp_rounded<P>(
    points: Seq<P>,
    corners: Seq<Corner<P>>,
    elements_per_segment: usize,
)
    requires
        points.len() >= 2,
        corners.len() + 2 == points.len(),
        forall|j: int| 0 <= j < corners.len() ==> #[trigger] corners[j] is Sharp,
    ensures
        rounded_polyline(points, corners, elements_per_segment) == points.map(
            |i: int, p: P| Vertex::Straight(PolyPoint::Given(p)),
        ),
{
    lemma_all_sharp_prefix(points, corners, elements_per_segment, corners.len() as int);
    assert(rounded_polyline(points, corners, elements_per_segment) =~= points.map(
        |i: int, p: P| Vertex::Straight(PolyPoint::Given(p)),
    ));
}

/// With every corner sharp, the prefix through corner `m` is the first
/// `m + 1` points, as straight anchors.
proof fn lemma_all_sharp_prefix<P>(
    points: Seq<P>,
    corners: Seq<Corner<P>>,
    elements_per_segment: usize,
    m: int,
)
    requires
        0 <= m <= corners.len(),
        corners.len() + 2 == points.len(),
        forall|j: int| 0 <= j < corners.len() ==> #[trigger] corners[j] is Sharp,
    ensures
        rounded_prefix(points, corners, elements_per_segment, m) == points.take(m + 1).map(
            |i: int, p: P| Vertex::Straight(PolyPoint::Given(p)),
        ),
    decreases m,
{
    if m > 0 {
        lemma_all_sharp_prefix(points, corners, elements_per_segment, m - 1);
        assert(corners[m - 1] is Sharp);
    }
    assert(rounded_prefix(points, corners, elements_per_segment, m) =~= points.take(m + 1).map(
        |i: int, p: P| Vertex::Straight(PolyPoint::Given(p)),
    ));
}

/// Every pair of consecutive vertices of an all-straight polyline is a
/// straight run.
proof fn lemma_all_straight_runs<P>(vs: Seq<Vertex<P>>, m: int)
    requires
        1 <= m <= vs.len(),
        forall|i: int| 0 <= i < vs.len() ==> #[trigger] (vs[i] is Straight),
    ensures
        straight_runs(vs, m) == m - 1,
    decreases m,
{
    if m > 1 {
        lemma_all_straight_runs(vs, m - 1);
        assert(vs[m - 2] is Straight);
        assert(vs[m - 1] is Straight);
    }
}

/// A section without rounded corners has `1 + (p - 1) * max(2,
/// elements_per_segment)` nodes for `p` points: every edge of the polyline is
/// one straight run.
pub proof fn lemma_sharp_section_node_count<P>(
    points: Seq<P>,
    corners: Seq<Corner<P>>,
    elements_per_segment: usize,
)
    requires
        points.len() >= 2,
        corners.len() + 2 == points.len(),
        forall|j: int| 0 <= j < corners.len() ==> #[trigger] corners[j] is Sharp,
    ensures
        planned(points, corners, elements_per_segment).len() == 1 + (points.len() - 1)
            * straight_pieces(elements_per_segment),
{
    let vs = rounded_polyline(points, corners, elements_per_segment);
    lemma_all_sharp_rounded(points, corners, elements_per_segment);
    assert(vs.len() == points.len());
    assert forall|i: int| 0 <= i < vs.len() implies #[trigger] (vs[i] is Straight) by {
        assert(vs[i] == Vertex::Straight(PolyPoint::Given(points[i])));
    }
    lemma_all_straight_runs(vs, vs.len() as int);
    lemma_meshed_shape(vs, elements_per_segment);
    let n = straight_pieces(elements_per_segment);
    let len = points.len();
    assert(len + (n - 1) * (len - 1) == 1 + (len - 1) * n) by (nonlinear_arith);
}

/// A longer prefix of the rounded polyline extends a shorter one.
proof fn lemma_rounded_prefix_extends<P>(
    points: Seq<P>,
    corners: Seq<Corner<P>>,
    elements_per_segment: usize,
    m: int,
    m2: int,
)
    requires
        0 <= m <= m2,
    ensures
        rounded_prefix(points, corners, elements_per_segment, m).len() <= rounded_prefix(
            points,
            corners,
            elements_per_segment,
            m2,
        ).len(),
        rounded_prefix(points, corners, elements_per_segment, m2).subrange(
            0,
            rounded_prefix(points, corners, elements_per_segment, m).len() as int,
        ) == rounded_prefix(points, corners, elements_per_segment, m),
    decreases m2,
{
    let short = rounded_prefix(points, corners, elements_per_segment, m);
    if m2 > m {
        lemma_rounded_prefix_extends(points, corners, elements_per_segment, m, m2 - 1);
        let mid = rounded_prefix(points, corners, elements_per_segment, m2 - 1);
        let long = rounded_prefix(points, corners, elements_per_segment, m2);
        assert(long.subrange(0, short.len() as int) =~= mid.subrange(0, short.len() as int));
    } else {
        assert(rounded_prefix(points, corners, elements_per_segment, m2).subrange(
            0,
            short.len() as int,
        ) =~= short);
    }
}

/// Where the vertices of corner `j` start in the rounded polyline: after the
/// first point and the vertices of the corners before it.
pub open spec fn corner_start<P>(
    corners: Seq<Corner<P>>,
    j: int,
    elements_per_segment: usize,
) -> int {
    1 + corners_vertex_count(corners, j, elements_per_segment) as int
}

/// The vertices of corner `j` stand, in order, from `corner_start(j)` on in
/// the rounded polyline.
pub proof fn lemma_corner_in_rounded<P>(
    points: Seq<P>,
    corners: Seq<Corner<P>>,
    j: int,
    elements_per_segment: usize,
)
    requires
        0 <= j < corners.len(),
    ensures
        corner_vertices(points, corners, j, elements_per_segment).len() == corner_vertex_count(
            corners,
            j,
            elements_per_segment,
        ),
        corner_start(corners, j, elements_per_segment) + corner_vertex_count(
            corners,
            j,
            elements_per_segment,
        ) < rounded_polyline(points, corners, elements_per_segment).len(),
        forall|k: int|
            0 <= k < corner_vertex_count(corners, j, elements_per_segment) ==> rounded_polyline(
                points,
                corners,
                elements_per_segment,
            )[corner_start(corners, j, elements_per_segment) + k] == #[trigger] corner_vertices(
                points,
                corners,
                j,
                elements_per_segment,
            )[k],
{
    let cv = corner_vertices(points, corners, j, elements_per_segment);
    let before = rounded_prefix(points, corners, elements_per_segment, j);
    let upto = rounded_prefix(points, corners, elements_per_segment, j + 1);
    let all = rounded_prefix(points, corners, elements_per_segment, corners.len() as int);
    let vs = rounded_polyline(points, corners, elements_per_segment);
    lemma_rounded_prefix_len(points, corners, elements_per_segment, j);
    lemma_rounded_prefix_len(points, corners, elements_per_segment, j + 1);
    lemma_rounded_prefix_extends(points, corners, elements_per_segment, j + 1, corners.len() as int);
    assert(upto == before + cv);
    assert(cv.len() == corner_vertex_count(corners, j, elements_per_segment));
    assert forall|k: int|
        0 <= k < corner_vertex_count(corners, j, elements_per_segment) implies vs[corner_start(
        corners,
        j,
        elements_per_segment,
    ) + k] == #[trigger] cv[k] by {
        let at = before.len() + k;
        assert(all.subrange(0, upto.len() as int)[at] == upto[at]);
        assert(upto[at] == cv[k]);
    }
}

/// Where the start anchor of rounded corner `j` lands in the plan.
pub open spec fn corner_plan_position<P>(
    points: Seq<P>,
    corners: Seq<Corner<P>>,
    j: int,
    elements_per_segment: usize,
) -> int {
    mesh_position(
        rounded_polyline(points, corners, elements_per_segment),
        straight_pieces(elements_per_segment),
        corner_start(corners, j, elements_per_segment),
    )
}

/// A rounded corner is made of exactly `n_arc` elements of the model, with
/// `n_arc = max(n_by_angle, elements_per_segment, 1)`: in the plan, its start
/// anchor is followed by exactly the `n_arc - 1` points along its arc, then
/// by its end anchor. The stretch between the two anchors is never
/// subdivided, not even when `n_arc` is 1.
pub proof fn lemma_plan_rounded_corner<P>(
    points: Seq<P>,
    corners: Seq<Corner<P>>,
    j: int,
    elements_per_segment: usize,
)
    requires
        points.len() >= 2,
        corners.len() + 2 == points.len(),
        0 <= j < corners.len(),
        corners[j] is Rounded,
    ensures
        ({
            let n_arc = arc_pieces(corners[j]->n_by_angle, elements_per_segment) as int;
            let a = corner_plan_position(points, corners, j, elements_per_segment);
            let plan = planned(points, corners, elements_per_segment);
            &&& 0 <= a
            &&& a + n_arc < plan.len()
            &&& plan[a] == MeshPoint::At(PolyPoint::Given(corners[j]->start))
            &&& plan[a + n_arc] == MeshPoint::At(PolyPoint::Given(corners[j]->end))
            &&& forall|k: int|
                0 < k < n_arc ==> #[trigger] plan[a + k] == MeshPoint::At(
                    PolyPoint::<P>::OnArc { corner: j as usize, k: k as usize, n: n_arc as usize },
                )
        }),
{
    let vs = rounded_polyline(points, corners, elements_per_segment);
    let n = straight_pieces(elements_per_segment);
    let n_arc = arc_pieces(corners[j]->n_by_angle, elements_per_segment) as int;
    let s = corner_start(corners, j, elements_per_segment);
    let cv = corner_vertices(points, corners, j, elements_per_segment);
    let plan = planned(points, corners, elements_per_segment);
    lemma_rounded_corner_pieces(points, corners, j, elements_per_segment);
    lemma_corner_in_rounded(points, corners, j, elements_per_segment);
    lemma_rounded_starts_with_first(points, corners, elements_per_segment);
    lemma_mesh_keeps_vertices(vs, elements_per_segment);
    assert(vs[s] == cv[0]);
    assert(vs[s + n_arc] == cv[n_arc]);
    // Inside the corner no stretch is straight, so positions advance by one.
    assert forall|k: int| 0 <= k <= n_arc implies #[trigger] mesh_position(vs, n, s + k)
        == mesh_position(vs, n, s) + k by {
        lemma_corner_positions(vs, n, elements_per_segment, s, n_arc, k, cv);
    }
    assert forall|k: int| 0 < k < n_arc implies #[trigger] plan[mesh_position(vs, n, s) + k]
        == MeshPoint::At(
        PolyPoint::<P>::OnArc { corner: j as usize, k: k as usize, n: n_arc as usize },
    ) by {
        assert(mesh_position(vs, n, s + k) == mesh_position(vs, n, s) + k);
        assert(vs[s + k] == cv[k]);
    }
    assert(mesh_position(vs, n, s + n_arc) == mesh_position(vs, n, s) + n_arc);
}

/// Positions of the vertices of one corner advance by one each.
proof fn lemma_corner_positions<P>(
    vs: Seq<Vertex<P>>,
    n: usize,
    elements_per_segment: usize,
    s: int,
    n_arc: int,
    k: int,
    cv: Seq<Vertex<P>>,
)
    requires
        n == straight_pieces(elements_per_segment),
        0 <= s,
        0 <= k <= n_arc,
        s + n_arc < vs.len(),
        cv.len() == n_arc + 1,
        forall|i: int| 0 <= i <= n_arc ==> vs[s + i] == #[trigger] cv[i],
        forall|i: int| 0 <= i < n_arc ==> !(#[trigger] cv[i] is Straight),
        forall|i: int|
            1 <= i < vs.len() ==> #[trigger] mesh_position(vs, n, i) - mesh_position(vs, n, i - 1)
                == if is_straight_run(vs[i - 1], vs[i]) {
                n as int
            } else {
                1
            },
    ensures
        mesh_position(vs, n, s + k) == mesh_position(vs, n, s) + k,
    decreases k,
{
    if k > 0 {
        lemma_corner_positions(vs, n, elements_per_segment, s, n_arc, k - 1, cv);
        assert(vs[s + k - 1] == cv[k - 1]);
        assert(!(cv[k - 1] is Straight));
        assert(!is_straight_run(vs[s + k - 1], vs[s + k]));
        assert(mesh_position(vs, n, s + k) - mesh_position(vs, n, s + k - 1) == 1);
    }
}

/// `q` is a supplied point, or a point of the arc of a rounded corner of
/// `corners` at a fraction `k / n_arc` strictly between its two anchors, with
/// the corner's own `n_arc`.
pub open spec fn names_arc_point<P>(
    corners: Seq<Corner<P>>,
    elements_per_segment: usize,
    q: PolyPoint<P>,
) -> bool {
    match q {
        PolyPoint::Given(_) => true,
        PolyPoint::OnArc { corner, k, n } => {
            &&& corner < corners.len()
            &&& corners[corner as int] is Rounded
            &&& n == arc_pieces(corners[corner as int]->n_by_angle, elements_per_segment)
            &&& 0 < k < n
        },
    }
}

/// Every point a mesh point refers to satisfies `ok`.
pub open spec fn mesh_point_within<P>(mp: MeshPoint<P>, ok: spec_fn(P) -> bool) -> bool {
    match mp {
        MeshPoint::At(q) => ok(q),
        MeshPoint::Between { from, to, .. } => ok(from) && ok(to),
    }
}

/// Every vertex of a prefix of the rounded polyline names a valid point.
proof fn lemma_rounded_prefix_names_arcs<P>(
    points: Seq<P>,
    corners: Seq<Corner<P>>,
    elements_per_segment: usize,
    m: int,
)
    requires
        0 <= m <= corners.len(),
        corners.len() <= usize::MAX,
    ensures
        forall|i: int|
            0 <= i < rounded_prefix(points, corners, elements_per_segment, m).len()
                ==> names_arc_point(
                corners,
                elements_per_segment,
                #[trigger] rounded_prefix(points, corners, elements_per_segment, m)[i].spec_point(),
            ),
    decreases m,
{
    if m > 0 {
        lemma_rounded_prefix_names_arcs(points, corners, elements_per_segment, m - 1);
        let before = rounded_prefix(points, corners, elements_per_segment, m - 1);
        let cv = corner_vertices(points, corners, m - 1, elements_per_segment);
        let all = rounded_prefix(points, corners, elements_per_segment, m);
        assert(all == before + cv);
        assert forall|i: int| 0 <= i < all.len() implies names_arc_point(
            corners,
            elements_per_segment,
            #[trigger] all[i].spec_point(),
        ) by {
            if i < before.len() {
                assert(all[i] == before[i]);
            } else {
                let r = i - before.len();
                assert(all[i] == cv[r]);
                if corners[m - 1] is Rounded {
                    lemma_rounded_corner_pieces(points, corners, m - 1, elements_per_segment);
                    let na = arc_pieces(corners[m - 1]->n_by_angle, elements_per_segment) as int;
                    if 0 < r < na {
                        assert(cv[r] == Vertex::<PolyPoint<P>>::Arc(
                            PolyPoint::OnArc { corner: (m - 1) as usize, k: r as usize, n: na as usize },
                        ));
                    }
                } else {
                    assert(cv[r] == Vertex::Straight(PolyPoint::Given(points[m])));
                }
            }
        }
    }
}

/// Meshing refers only to points of the vertices it meshes.
proof fn lemma_mesh_prefix_within<P>(
    vs: Seq<Vertex<P>>,
    n: usize,
    m: int,
    ok: spec_fn(P) -> bool,
)
    requires
        1 <= m <= vs.len(),
        forall|i: int| 0 <= i < vs.len() ==> ok(#[trigger] vs[i].spec_point()),
    ensures
        forall|i: int|
            0 <= i < mesh_prefix(vs, n, m).len() ==> mesh_point_within(
                #[trigger] mesh_prefix(vs, n, m)[i],
                ok,
            ),
    decreases m,
{
    if m > 1 {
        lemma_mesh_prefix_within(vs, n, m - 1, ok);
        let before = mesh_prefix(vs, n, m - 1);
        let step = mesh_step(vs[m - 2], vs[m - 1], n);
        let all = mesh_prefix(vs, n, m);
        assert(ok(vs[m - 2].spec_point()));
        assert(ok(vs[m - 1].spec_point()));
        assert forall|i: int| 0 <= i < all.len() implies mesh_point_within(#[trigger] all[i], ok) by {
            if i < before.len() {
                assert(all[i] == before[i]);
            } else {
                assert(all[i] == step[i - before.len()]);
            }
        }
    } else {
        assert(ok(vs[0].spec_point()));
    }
}

/// Every point of the plan is a supplied point, a point on the arc of a
/// rounded corner (strictly between its anchors, `0 < k < n_arc`, with that
/// corner's `n_arc`), or an interpolation point between two such points.
pub proof fn lemma_plan_names_arcs<P>(
    points: Seq<P>,
    corners: Seq<Corner<P>>,
    elements_per_segment: usize,
)
    requires
        points.len() >= 2,
        corners.len() + 2 == points.len(),
        points.len() <= usize::MAX,
    ensures
        forall|i: int|
            0 <= i < planned(points, corners, elements_per_segment).len() ==> mesh_point_within(
                #[trigger] planned(points, corners, elements_per_segment)[i],
                |q: PolyPoint<P>| names_arc_point(corners, elements_per_segment, q),
            ),
{
    let vs = rounded_polyline(points, corners, elements_per_segment);
    let ok = |q: PolyPoint<P>| names_arc_point(corners, elements_per_segment, q);
    let all = rounded_prefix(points, corners, elements_per_segment, corners.len() as int);
    lemma_rounded_prefix_names_arcs(points, corners, elements_per_segment, corners.len() as int);
    assert forall|i: int| 0 <= i < vs.len() implies ok(#[trigger] vs[i].spec_point()) by {
        if i < all.len() {
            assert(vs[i] == all[i]);
        }
    }
    lemma_mesh_prefix_within(vs, straight_pieces(elements_per_segment), vs.len() as int, ok);
}

/// Every corner contributes at least one vertex.
proof fn lemma_corners_vertex_count_min<P>(
    corners: Seq<Corner<P>>,
    m: int,
    elements_per_segment: usize,
)
    requires
        0 <= m,
    ensures
        corners_vertex_count(corners, m, elements_per_segment) >= m,
    decreases m,
{
    if m > 0 {
        lemma_corners_vertex_count_min(corners, m - 1, elements_per_segment);
    }
}

/// Every plan has at least three points: even a single straight segment is
/// split into at least two pieces.
pub proof fn lemma_plan_len_at_least_three<P>(
    points: Seq<P>,
    corners: Seq<Corner<P>>,
    elements_per_segment: usize,
)
    requires
        points.len() >= 2,
        corners.len() + 2 == points.len(),
    ensures
        planned(points, corners, elements_per_segment).len() >= 3,
{
    let vs = rounded_polyline(points, corners, elements_per_segment);
    let n = straight_pieces(elements_per_segment);
    lemma_rounded_len(points, corners, elements_per_segment);
    lemma_corners_vertex_count_min(corners, corners.len() as int, elements_per_segment);
    lemma_meshed_shape(vs, elements_per_segment);
    let runs = straight_runs(vs, vs.len() as int);
    assert((n - 1) * runs >= 0) by (nonlinear_arith)
        requires
            n >= 2,
    ;
    if corners.len() == 0 {
        lemma_rounded_starts_with_first(points, corners, elements_per_segment);
        assert(vs.len() == 2);
        assert(vs[1] == vs.last());
        assert(straight_runs(vs, 1) == 0);
        assert(is_straight_run(vs[0], vs[1]));
        assert(runs == 1);
        assert((n - 1) * runs == n - 1) by (nonlinear_arith)
            requires
                runs == 1,
        ;
    }
}

/// The number of pieces of every straight run is `elements_per_segment`, or 2
/// when that is less than 2.
pub proof fn lemma_straight_pieces_value(elements_per_segment: usize)
    ensures
        straight_pieces(elements_per_segment) == if elements_per_segment >= 2 {
            elements_per_segment
        } else {
            2
        },
{
}

/// Where vertex `i` of `vs` lands in its mesh with `n` pieces per straight
/// run: after the `i` vertices before it and the `n - 1` interior points of
/// each straight run among them.
pub open spec fn vertex_mesh_index<P>(vs: Seq<Vertex<P>>, n: int, i: int) -> int {
    i + (n - 1) * straight_runs(vs, i + 1)
}

/// Where the `k`-th interior point of the run leaving vertex `i` lands.
pub open spec fn run_point_index<P>(vs: Seq<Vertex<P>>, n: int, i: int, k: int) -> int {
    vertex_mesh_index(vs, n, i) + k
}

/// The `k`-th interior point of the straight run leaving vertex `i` comes `k`
/// places after that vertex in the mesh.
proof fn lemma_mesh_run_point<P>(vs: Seq<Vertex<P>>, n: usize, i: int, k: int)
    requires
        0 <= i < vs.len() - 1,
        n >= 1,
        0 < k < n,
        is_straight_run(vs[i], vs[i + 1]),
    ensures
        mesh_prefix(vs, n, vs.len() as int)[mesh_position(vs, n, i) + k] == (MeshPoint::Between {
            from: vs[i].spec_point(),
            to: vs[i + 1].spec_point(),
            k: k as usize,
            n: n,
        }),
{
    let before = mesh_prefix(vs, n, i + 1);
    let upto = mesh_prefix(vs, n, i + 2);
    let step = mesh_step(vs[i], vs[i + 1], n);
    assert(upto == before + step);
    assert(step[k - 1] == MeshPoint::Between {
        from: vs[i].spec_point(),
        to: vs[i + 1].spec_point(),
        k: k as usize,
        n: n,
    });
    assert(step.len() == n);
    lemma_mesh_prefix_extends(vs, n, i + 2, vs.len() as int);
    let at = before.len() + k - 1;
    assert(upto[at] == step[k - 1]);
    assert(mesh_prefix(vs, n, vs.len() as int).subrange(0, upto.len() as int)[at] == upto[at]);
}

/// `out` is the mesh of `vs` with `n` pieces per straight run, in closed form: it has the vertices and `n - 1` interior
/// points per straight run; vertex `i` is the point at
/// `vertex_mesh_index(i) = i + (n - 1) * (straight runs up to vertex i)`; and
/// the run leaving vertex `i`, when straight, has its `k`-th interior point
/// (`0 < k < n`) `k` places after it, at fraction `k / n` from `vs[i]` to
/// `vs[i + 1]`. These positions cover all of `out`, so this says what every
/// point of it is.
pub open spec fn is_mesh_of<P>(out: Seq<MeshPoint<P>>, vs: Seq<Vertex<P>>, n: int) -> bool {
    &&& out.len() == vs.len() + (n - 1) * straight_runs(vs, vs.len() as int)
    &&& vertex_mesh_index(vs, n, 0) == 0
    &&& vertex_mesh_index(vs, n, vs.len() - 1) == out.len() - 1
    &&& forall|i: int|
        1 <= i < vs.len() ==> #[trigger] vertex_mesh_index(vs, n, i) == vertex_mesh_index(
            vs,
            n,
            i - 1,
        ) + if is_straight_run(vs[i - 1], vs[i]) {
            n
        } else {
            1
        }
    &&& forall|i: int|
        0 <= i < vs.len() ==> out[#[trigger] vertex_mesh_index(vs, n, i)] == MeshPoint::At(
            vs[i].spec_point(),
        )
    &&& forall|i: int, k: int|
        0 <= i < vs.len() - 1 && 0 < k < n && is_straight_run(vs[i], vs[i + 1])
            ==> out[#[trigger] run_point_index(vs, n, i, k)] == MeshPoint::Between {
            from: vs[i].spec_point(),
            to: vs[i + 1].spec_point(),
            k: k as usize,
            n: n as usize,
        }
}

/// Meshing gives the mesh in closed form (see `is_mesh_of`), with
/// `max(2, elements_per_segment)` pieces per straight run.
pub proof fn lemma_meshed_entries<P>(vs: Seq<Vertex<P>>, elements_per_segment: usize)
    requires
        vs.len() >= 1,
    ensures
        is_mesh_of(
            meshed(vs, elements_per_segment),
            vs,
            if elements_per_segment >= 2 {
                elements_per_segment as int
            } else {
                2
            },
        ),
{
    let nn = straight_pieces(elements_per_segment);
    lemma_straight_pieces_value(elements_per_segment);
    let n = nn as int;
    let len = vs.len() as int;
    let out = meshed(vs, elements_per_segment);
    assert forall|i: int| 0 <= i < len implies #[trigger] vertex_mesh_index(vs, n, i) == mesh_position(
        vs,
        nn,
        i,
    ) by {
        lemma_mesh_prefix_len(vs, nn, i + 1);
    }
    lemma_mesh_keeps_vertices(vs, elements_per_segment);
    lemma_meshed_shape(vs, elements_per_segment);
    assert(straight_runs(vs, 1) == 0);
    assert(vertex_mesh_index(vs, n, 0) == 0) by {
        assert((n - 1) * 0 == 0) by (nonlinear_arith);
    }
    assert(vertex_mesh_index(vs, n, len - 1) == mesh_position(vs, nn, len - 1));
    lemma_mesh_prefix_len(vs, nn, len);
    assert forall|i: int| 1 <= i < len implies #[trigger] vertex_mesh_index(vs, n, i)
        == vertex_mesh_index(vs, n, i - 1) + if is_straight_run(vs[i - 1], vs[i]) {
        n
    } else {
        1
    } by {
        assert(vertex_mesh_index(vs, n, i) == mesh_position(vs, nn, i));
        assert(vertex_mesh_index(vs, n, i - 1) == mesh_position(vs, nn, i - 1));
    }
    assert forall|i: int| 0 <= i < len implies out[#[trigger] vertex_mesh_index(vs, n, i)]
        == MeshPoint::At(vs[i].spec_point()) by {
        assert(vertex_mesh_index(vs, n, i) == mesh_position(vs, nn, i));
    }
    assert forall|i: int, k: int|
        0 <= i < len - 1 && 0 < k < n && is_straight_run(vs[i], vs[i + 1]) implies out[
        #[trigger] run_point_index(vs, n, i, k)] == MeshPoint::Between {
        from: vs[i].spec_point(),
        to: vs[i + 1].spec_point(),
        k: k as usize,
        n: n as usize,
    } by {
        assert(vertex_mesh_index(vs, n, i) == mesh_position(vs, nn, i));
        lemma_mesh_run_point(vs, nn, i, k);
    }
}

/// Mesh positions increase along the polyline.
proof fn lemma_mesh_position_increasing<P>(vs: Seq<Vertex<P>>, elements_per_segment: usize, a: int, b: int)
    requires
        0 <= a < b < vs.len(),
    ensures
        mesh_position(vs, straight_pieces(elements_per_segment), a) < mesh_position(
            vs,
            straight_pieces(elements_per_segment),
            b,
        ),
    decreases b - a,
{
    let n = straight_pieces(elements_per_segment);
    lemma_mesh_keeps_vertices(vs, elements_per_segment);
    assert(mesh_position(vs, n, b) - mesh_position(vs, n, b - 1) >= 1);
    if b - 1 > a {
        lemma_mesh_position_increasing(vs, elements_per_segment, a, b - 1);
    }
}

/// Corners start further along the rounded polyline the later they come,
/// each after all the vertices of the corners before it.
proof fn lemma_corner_start_increasing<P>(
    corners: Seq<Corner<P>>,
    elements_per_segment: usize,
    j: int,
    j2: int,
)
    requires
        0 <= j < j2 <= corners.len(),
    ensures
        corner_start(corners, j, elements_per_segment) + corner_vertex_count(
            corners,
            j,
            elements_per_segment,
        ) <= corner_start(corners, j2, elements_per_segment),
    decreases j2 - j,
{
    if j2 - 1 > j {
        lemma_corner_start_increasing(corners, elements_per_segment, j, j2 - 1);
    }
}

/// A sharp corner keeps its vertex: the plan has the point `points[j + 1]` at
/// the corner's position.
pub proof fn lemma_plan_sharp_corner<P>(
    points: Seq<P>,
    corners: Seq<Corner<P>>,
    j: int,
    elements_per_segment: usize,
)
    requires
        points.len() >= 2,
        corners.len() + 2 == points.len(),
        0 <= j < corners.len(),
        corners[j] is Sharp,
    ensures
        0 < corner_plan_position(points, corners, j, elements_per_segment) < planned(
            points,
            corners,
            elements_per_segment,
        ).len() - 1,
        planned(points, corners, elements_per_segment)[corner_plan_position(
            points,
            corners,
            j,
            elements_per_segment,
        )] == MeshPoint::At(PolyPoint::Given(points[j + 1])),
{
    let vs = rounded_polyline(points, corners, elements_per_segment);
    let s = corner_start(corners, j, elements_per_segment);
    lemma_corner_in_rounded(points, corners, j, elements_per_segment);
    assert(vs[s] == corner_vertices(points, corners, j, elements_per_segment)[0]);
    lemma_rounded_starts_with_first(points, corners, elements_per_segment);
    lemma_mesh_keeps_vertices(vs, elements_per_segment);
    lemma_plan_corner_inner(points, corners, j, elements_per_segment);
}

/// Every corner lands strictly between the two endpoints of the plan.
proof fn lemma_plan_corner_inner<P>(
    points: Seq<P>,
    corners: Seq<Corner<P>>,
    j: int,
    elements_per_segment: usize,
)
    requires
        points.len() >= 2,
        corners.len() + 2 == points.len(),
        0 <= j < corners.len(),
    ensures
        0 < corner_plan_position(points, corners, j, elements_per_segment) < planned(
            points,
            corners,
            elements_per_segment,
        ).len() - 1,
{
    let vs = rounded_polyline(points, corners, elements_per_segment);
    let n = straight_pieces(elements_per_segment);
    let s = corner_start(corners, j, elements_per_segment);
    lemma_corner_in_rounded(points, corners, j, elements_per_segment);
    lemma_rounded_starts_with_first(points, corners, elements_per_segment);
    lemma_mesh_position_increasing(vs, elements_per_segment, 0, s);
    lemma_mesh_position_increasing(vs, elements_per_segment, s, vs.len() - 1);
    lemma_mesh_prefix_len(vs, n, 1);
    lemma_mesh_prefix_len(vs, n, vs.len() as int);
    assert(straight_runs(vs, 1) == 0);
    assert((n - 1) * straight_runs(vs, 1) == 0) by (nonlinear_arith)
        requires
            straight_runs(vs, 1) == 0,
    ;
}

/// Corners come into the plan in the order of the polyline: a later corner
/// lands further along the plan, after all the points of an earlier one.
pub proof fn lemma_plan_corner_order<P>(
    points: Seq<P>,
    corners: Seq<Corner<P>>,
    j: int,
    j2: int,
    elements_per_segment: usize,
)
    requires
        points.len() >= 2,
        corners.len() + 2 == points.len(),
        0 <= j < j2 < corners.len(),
    ensures
        corner_plan_position(points, corners, j, elements_per_segment) < corner_plan_position(
            points,
            corners,
            j2,
            elements_per_segment,
        ),
{
    let vs = rounded_polyline(points, corners, elements_per_segment);
    lemma_corner_start_increasing(corners, elements_per_segment, j, j2);
    lemma_corner_in_rounded(points, corners, j2, elements_per_segment);
    lemma_mesh_position_increasing(
        vs,
        elements_per_segment,
        corner_start(corners, j, elements_per_segment),
        corner_start(corners, j2, elements_per_segment),
    );
}

/// A section without rounded corners is meshed point by point, in input
/// order: its plan is the polyline with every edge split into
/// `max(2, elements_per_segment)` equal pieces (see `is_edge_split`).
pub proof fn lemma_plan_all_sharp<P>(
    points: Seq<P>,
    corners: Seq<Corner<P>>,
    elements_per_segment: usize,
)
    requires
        points.len() >= 2,
        corners.len() + 2 == points.len(),
        forall|j: int| 0 <= j < corners.len() ==> #[trigger] corners[j] is Sharp,
    ensures
        is_edge_split(
            planned(points, corners, elements_per_segment),
            points,
            if elements_per_segment >= 2 {
                elements_per_segment as int
            } else {
                2
            },
        ),
{
    let n: int = if elements_per_segment >= 2 { elements_per_segment as int } else { 2 };
    let plan = planned(points, corners, elements_per_segment);
    let vs = rounded_polyline(points, corners, elements_per_segment);
    lemma_all_sharp_rounded(points, corners, elements_per_segment);
    assert(vs.len() == points.len());
    assert forall|i: int| 0 <= i < vs.len() implies vs[i] == Vertex::Straight(
        PolyPoint::Given(points[i]),
    ) by {}
    assert forall|i: int| 0 <= i < vs.len() implies #[trigger] (vs[i] is Straight) by {
        assert(vs[i] == Vertex::Straight(PolyPoint::Given(points[i])));
    }
    lemma_meshed_entries(vs, elements_per_segment);
    lemma_sharp_section_node_count(points, corners, elements_per_segment);
    lemma_straight_pieces_value(elements_per_segment);
    assert forall|i: int| 0 <= i < vs.len() implies vertex_mesh_index(vs, n, i) == #[trigger] (i
        * n) by {
        lemma_all_straight_runs(vs, i + 1);
        assert(i + (n - 1) * i == i * n) by (nonlinear_arith);
    }
    assert forall|i: int| 0 <= i < points.len() implies plan[#[trigger] (i * n)] == MeshPoint::At(
        PolyPoint::Given(points[i]),
    ) by {
        assert(vertex_mesh_index(vs, n, i) == i * n);
        assert(is_mesh_of(plan, vs, n));
        assert(plan[vertex_mesh_index(vs, n, i)] == MeshPoint::At(vs[i].spec_point()));
        assert(vs[i].spec_point() == PolyPoint::Given(points[i]));
    }
    assert forall|i: int, k: int| 0 <= i < points.len() - 1 && 0 < k < n implies plan[
        #[trigger] (i * n + k)] == MeshPoint::Between {
        from: PolyPoint::Given(points[i]),
        to: PolyPoint::Given(points[i + 1]),
        k: k as usize,
        n: n as usize,
    } by {
        assert(vertex_mesh_index(vs, n, i) == i * n);
        assert(run_point_index(vs, n, i, k) == i * n + k);
        assert(is_mesh_of(plan, vs, n));
        assert(vs[i] is Straight && vs[i + 1] is Straight);
        assert(is_straight_run(vs[i], vs[i + 1]));
        assert(vs[i + 1].spec_point() == PolyPoint::Given(points[i + 1]));
        assert(plan[run_point_index(vs, n, i, k)] == MeshPoint::Between {
            from: vs[i].spec_point(),
            to: vs[i + 1].spec_point(),
            k: k as usize,
            n: n as usize,
        });
    }
}

/// `plan` follows the section: it has at least three points, starts and ends
/// at the endpoints of the polyline, has each sharp corner's point at the
/// corner's position, has the corners in polyline order, has each rounded
/// corner as its start anchor, the `n_arc - 1` points along its arc and its
/// end anchor, and, for a section without rounded corners, is the polyline
/// with each edge split into `max(2, elements_per_segment)` equal pieces in
/// order.
pub open spec fn follows_section<P>(
    plan: Seq<MeshPoint<PolyPoint<P>>>,
    points: Seq<P>,
    corners: Seq<Corner<P>>,
    elements_per_segment: usize,
) -> bool {
    &&& plan.len() >= 3
    &&& plan[0] == MeshPoint::At(PolyPoint::Given(points[0]))
    &&& plan.last() == MeshPoint::At(PolyPoint::Given(points.last()))
    &&& forall|j: int|
        0 <= j < corners.len() && corners[j] is Sharp ==> {
            &&& 0 < #[trigger] corner_plan_position(points, corners, j, elements_per_segment)
                < plan.len() - 1
            &&& plan[corner_plan_position(points, corners, j, elements_per_segment)]
                == MeshPoint::At(PolyPoint::Given(points[j + 1]))
        }
    &&& forall|j: int, j2: int|
        0 <= j < j2 < corners.len() ==> #[trigger] corner_plan_position(
            points,
            corners,
            j,
            elements_per_segment,
        ) < #[trigger] corner_plan_position(points, corners, j2, elements_per_segment)
    &&& forall|j: int|
        0 <= j < corners.len() && corners[j] is Rounded ==> {
            let n_arc = arc_pieces(corners[j]->n_by_angle, elements_per_segment) as int;
            let a = #[trigger] corner_plan_position(points, corners, j, elements_per_segment);
            &&& 0 <= a
            &&& a + n_arc < plan.len()
            &&& plan[a] == MeshPoint::At(PolyPoint::Given(corners[j]->start))
            &&& plan[a + n_arc] == MeshPoint::At(PolyPoint::Given(corners[j]->end))
            &&& forall|k: int|
                0 < k < n_arc ==> #[trigger] plan[a + k] == MeshPoint::At(
                    PolyPoint::<P>::OnArc { corner: j as usize, k: k as usize, n: n_arc as usize },
                )
        }
    &&& (forall|j: int| 0 <= j < corners.len() ==> #[trigger] corners[j] is Sharp)
        ==> is_edge_split(
        plan,
        points,
        if elements_per_segment >= 2 {
            elements_per_segment as int
        } else {
            2
        },
    )
}

/// `plan` is the polyline `points` with every edge split into `n` equal
/// pieces, in order: point `i` is entry `i * n`, and the point at fraction
/// `k / n` from `points[i]` to `points[i + 1]` is entry `i * n + k`.
pub open spec fn is_edge_split<P>(plan: Seq<MeshPoint<PolyPoint<P>>>, points: Seq<P>, n: int) -> bool {
    &&& plan.len() == 1 + (points.len() - 1) * n
    &&& forall|i: int|
        0 <= i < points.len() ==> plan[#[trigger] (i * n)] == MeshPoint::At(
            PolyPoint::Given(points[i]),
        )
    &&& forall|i: int, k: int|
        0 <= i < points.len() - 1 && 0 < k < n ==> plan[#[trigger] (i * n + k)]
            == MeshPoint::Between {
            from: PolyPoint::Given(points[i]),
            to: PolyPoint::Given(points[i + 1]),
            k: k as usize,
            n: n as usize,
        }
}

/// The plan of every section follows it (see `follows_section`).
pub proof fn lemma_plan_follows_section<P>(
    points: Seq<P>,
    corners: Seq<Corner<P>>,
    elements_per_segment: usize,
)
    requires
        points.len() >= 2,
        corners.len() + 2 == points.len(),
    ensures
        follows_section(
            planned(points, corners, elements_per_segment),
            points,
            corners,
            elements_per_segment,
        ),
{
    let plan = planned(points, corners, elements_per_segment);
    let ps = points;
    let cs = corners;
    lemma_plan_len_at_least_three(ps, cs, elements_per_segment);
    lemma_plan_endpoints(ps, cs, elements_per_segment);
    assert forall|j: int| 0 <= j < cs.len() && cs[j] is Sharp implies {
        &&& 0 < #[trigger] corner_plan_position(ps, cs, j, elements_per_segment) < plan.len() - 1
        &&& plan[corner_plan_position(ps, cs, j, elements_per_segment)] == MeshPoint::At(
            PolyPoint::Given(ps[j + 1]),
        )
    } by {
        lemma_plan_sharp_corner(ps, cs, j, elements_per_segment);
    }
    assert forall|j: int, j2: int| 0 <= j < j2 < cs.len() implies #[trigger] corner_plan_position(
        ps,
        cs,
        j,
        elements_per_segment,
    ) < #[trigger] corner_plan_position(ps, cs, j2, elements_per_segment) by {
        lemma_plan_corner_order(ps, cs, j, j2, elements_per_segment);
    }
    assert forall|j: int| 0 <= j < cs.len() && cs[j] is Rounded implies {
        let n_arc = arc_pieces(cs[j]->n_by_angle, elements_per_segment) as int;
        let a = #[trigger] corner_plan_position(ps, cs, j, elements_per_segment);
        &&& 0 <= a
        &&& a + n_arc < plan.len()
        &&& plan[a] == MeshPoint::At(PolyPoint::Given(cs[j]->start))
        &&& plan[a + n_arc] == MeshPoint::At(PolyPoint::Given(cs[j]->end))
        &&& forall|k: int|
            0 < k < n_arc ==> #[trigger] plan[a + k] == MeshPoint::At(
                PolyPoint::<P>::OnArc { corner: j as usize, k: k as usize, n: n_arc as usize },
            )
    } by {
        lemma_plan_rounded_corner(ps, cs, j, elements_per_segment);
    }
    if forall|j: int| 0 <= j < cs.len() ==> #[trigger] cs[j] is Sharp {
        lemma_plan_all_sharp(ps, cs, elements_per_segment);
    }
}

/// `out` is the rounded polyline of `points` and `corners` in closed form: it
/// starts and ends at the endpoints as straight anchors; corner `j` occupies
/// the places from `corner_start(j)` on (after the first point and the
/// vertices of the corners before it); a sharp corner there keeps its vertex
/// `points[j + 1]`; a rounded one has its start anchor, the arc points at
/// fractions `k / n_arc` for `0 < k < n_arc` in increasing order, and its end
/// anchor, with `n_arc = max(n_by_angle, elements_per_segment, 1)`.
pub open spec fn is_rounding_of<P>(
    out: Seq<Vertex<PolyPoint<P>>>,
    points: Seq<P>,
    corners: Seq<Corner<P>>,
    elements_per_segment: usize,
) -> bool {
    &&& out.len() == 2 + corners_vertex_count(corners, corners.len() as int, elements_per_segment)
    &&& out[0] == Vertex::Straight(PolyPoint::Given(points[0]))
    &&& out.last() == Vertex::Straight(PolyPoint::Given(points.last()))
    &&& forall|j: int|
        0 <= j < corners.len() && corners[j] is Sharp ==> out[#[trigger] corner_start(
            corners,
            j,
            elements_per_segment,
        )] == Vertex::Straight(PolyPoint::Given(points[j + 1]))
    &&& forall|j: int|
        0 <= j < corners.len() && corners[j] is Rounded ==> {
            let s = #[trigger] corner_start(corners, j, elements_per_segment);
            let n_arc = arc_pieces(corners[j]->n_by_angle, elements_per_segment) as int;
            &&& out[s] == Vertex::ArcStart(PolyPoint::Given(corners[j]->start))
            &&& out[s + n_arc] == Vertex::Straight(PolyPoint::Given(corners[j]->end))
            &&& forall|k: int|
                0 < k < n_arc ==> #[trigger] out[s + k] == Vertex::<PolyPoint<P>>::Arc(
                    PolyPoint::OnArc { corner: j as usize, k: k as usize, n: n_arc as usize },
                )
        }
}

/// Rounding gives the rounded polyline in closed form (see `is_rounding_of`).
pub proof fn lemma_rounded_closed_form<P>(
    points: Seq<P>,
    corners: Seq<Corner<P>>,
    elements_per_segment: usize,
)
    requires
        points.len() >= 2,
        corners.len() + 2 == points.len(),
    ensures
        is_rounding_of(
            rounded_polyline(points, corners, elements_per_segment),
            points,
            corners,
            elements_per_segment,
        ),
{
    let out = rounded_polyline(points, corners, elements_per_segment);
    lemma_rounded_len(points, corners, elements_per_segment);
    lemma_rounded_starts_with_first(points, corners, elements_per_segment);
    assert forall|j: int| 0 <= j < corners.len() && corners[j] is Sharp implies out[
        #[trigger] corner_start(corners, j, elements_per_segment)] == Vertex::Straight(
        PolyPoint::Given(points[j + 1]),
    ) by {
        lemma_corner_in_rounded(points, corners, j, elements_per_segment);
        assert(out[corner_start(corners, j, elements_per_segment) + 0] == corner_vertices(
            points,
            corners,
            j,
            elements_per_segment,
        )[0]);
    }
    assert forall|j: int| 0 <= j < corners.len() && corners[j] is Rounded implies {
        let s = #[trigger] corner_start(corners, j, elements_per_segment);
        let n_arc = arc_pieces(corners[j]->n_by_angle, elements_per_segment) as int;
        &&& out[s] == Vertex::ArcStart(PolyPoint::Given(corners[j]->start))
        &&& out[s + n_arc] == Vertex::Straight(PolyPoint::Given(corners[j]->end))
        &&& forall|k: int|
            0 < k < n_arc ==> #[trigger] out[s + k] == Vertex::<PolyPoint<P>>::Arc(
                PolyPoint::OnArc { corner: j as usize, k: k as usize, n: n_arc as usize },
            )
    } by {
        let s = corner_start(corners, j, elements_per_segment);
        let cv = corner_vertices(points, corners, j, elements_per_segment);
        let n_arc = arc_pieces(corners[j]->n_by_angle, elements_per_segment) as int;
        lemma_corner_in_rounded(points, corners, j, elements_per_segment);
        lemma_rounded_corner_pieces(points, corners, j, elements_per_segment);
        assert(out[s + 0] == cv[0]);
        assert(out[s + n_arc] == cv[n_arc]);
        assert forall|k: int| 0 < k < n_arc implies #[trigger] out[s + k]
            == Vertex::<PolyPoint<P>>::Arc(
            PolyPoint::OnArc { corner: j as usize, k: k as usize, n: n_arc as usize },
        ) by {
            assert(out[s + k] == cv[k]);
        }
    }
}

} // verus!
