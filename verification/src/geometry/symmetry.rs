//! How rounding and meshing commute with mapping the points and with
//! reversing the polyline.
use vstd::prelude::*;

use super::mesh::{MeshPoint, mesh_prefix, mesh_step, meshed, run_interior, straight_pieces};
use super::laws::{
    corner_start,
    corner_vertex_count,
    corners_vertex_count,
    lemma_corner_in_rounded,
    lemma_rounded_corner_pieces,
    lemma_rounded_len,
    lemma_rounded_starts_with_first,
};
use super::planned;
use super::rounding::{
    Corner,
    PolyPoint,
    Vertex,
    corner_vertices,
    is_straight_run,
    rounded_polyline,
    rounded_prefix,
};

verus! {

/// The corner with its anchor points mapped by `f`.
pub open spec fn map_corner<P, Q>(f: spec_fn(P) -> Q, c: Corner<P>) -> Corner<Q> {
    match c {
        Corner::Sharp => Corner::Sharp,
        Corner::Rounded { start, end, n_by_angle } => Corner::Rounded {
            start: f(start),
            end: f(end),
            n_by_angle: n_by_angle,
        },
    }
}

/// The polyline point with a supplied point mapped by `f`; arc points keep
/// their corner and fraction.
pub open spec fn map_poly<P, Q>(f: spec_fn(P) -> Q, q: PolyPoint<P>) -> PolyPoint<Q> {
    match q {
        PolyPoint::Given(p) => PolyPoint::Given(f(p)),
        PolyPoint::OnArc { corner, k, n } => PolyPoint::OnArc { corner, k, n },
    }
}

/// The vertex with its point mapped by `h`, of the same kind.
pub open spec fn map_vertex<P, Q>(h: spec_fn(P) -> Q, v: Vertex<P>) -> Vertex<Q> {
    match v {
        Vertex::Straight(p) => Vertex::Straight(h(p)),
        Vertex::ArcStart(p) => Vertex::ArcStart(h(p)),
        Vertex::Arc(p) => Vertex::Arc(h(p)),
    }
}

/// The mesh point with the points it refers to mapped by `h`.
pub open spec fn map_mesh<P, Q>(h: spec_fn(P) -> Q, mp: MeshPoint<P>) -> MeshPoint<Q> {
    match mp {
        MeshPoint::At(q) => MeshPoint::At(h(q)),
        MeshPoint::Between { from, to, k, n } => MeshPoint::Between {
            from: h(from),
            to: h(to),
            k: k,
            n: n,
        },
    }
}

/// Rounding commutes with mapping the prefix through corner `m`.
proof fn lemma_rounded_prefix_map<P, Q>(
    f: spec_fn(P) -> Q,
    points: Seq<P>,
    corners: Seq<Corner<P>>,
    elements_per_segment: usize,
    m: int,
)
    requires
        0 <= m <= corners.len(),
        corners.len() + 2 == points.len(),
    ensures
        rounded_prefix(
            points.map_values(f),
            corners.map_values(|c: Corner<P>| map_corner(f, c)),
            elements_per_segment,
            m,
        ) == rounded_prefix(points, corners, elements_per_segment, m).map_values(
            |v: Vertex<PolyPoint<P>>| map_vertex(|q: PolyPoint<P>| map_poly(f, q), v),
        ),
    decreases m,
{
    let mp = points.map_values(f);
    let mc = corners.map_values(|c: Corner<P>| map_corner(f, c));
    let mv = |v: Vertex<PolyPoint<P>>| map_vertex(|q: PolyPoint<P>| map_poly(f, q), v);
    if m > 0 {
        lemma_rounded_prefix_map(f, points, corners, elements_per_segment, m - 1);
        let cv = corner_vertices(points, corners, m - 1, elements_per_segment);
        let mcv = corner_vertices(mp, mc, m - 1, elements_per_segment);
        assert(mc[m - 1] == map_corner(f, corners[m - 1]));
        assert(mp[m] == f(points[m]));
        match corners[m - 1] {
            Corner::Sharp => {
                assert(mcv =~= cv.map_values(mv));
            },
            Corner::Rounded { start, end, n_by_angle } => {
                assert(mcv =~= cv.map_values(mv));
            },
        }
        assert(rounded_prefix(mp, mc, elements_per_segment, m) =~= rounded_prefix(
            points,
            corners,
            elements_per_segment,
            m,
        ).map_values(mv));
    } else {
        assert(mp[0] == f(points[0]));
        assert(rounded_prefix(mp, mc, elements_per_segment, m) =~= rounded_prefix(
            points,
            corners,
            elements_per_segment,
            m,
        ).map_values(mv));
    }
}

/// Rounding commutes with mapping the points: rounding the points and corner
/// anchors mapped by `f` gives the rounded polyline with every supplied point
/// mapped by `f`, the vertex kinds and arc points unchanged. So a mirrored,
/// moved or scaled section is rounded into the mirrored, moved or scaled
/// polyline.
pub proof fn lemma_rounded_map<P, Q>(
    f: spec_fn(P) -> Q,
    points: Seq<P>,
    corners: Seq<Corner<P>>,
    elements_per_segment: usize,
)
    requires
        points.len() >= 2,
        corners.len() + 2 == points.len(),
    ensures
        rounded_polyline(
            points.map_values(f),
            corners.map_values(|c: Corner<P>| map_corner(f, c)),
            elements_per_segment,
        ) == rounded_polyline(points, corners, elements_per_segment).map_values(
            |v: Vertex<PolyPoint<P>>| map_vertex(|q: PolyPoint<P>| map_poly(f, q), v),
        ),
{
    let mp = points.map_values(f);
    let mc = corners.map_values(|c: Corner<P>| map_corner(f, c));
    let mv = |v: Vertex<PolyPoint<P>>| map_vertex(|q: PolyPoint<P>| map_poly(f, q), v);
    lemma_rounded_prefix_map(f, points, corners, elements_per_segment, corners.len() as int);
    assert(mp.last() == f(points.last()));
    assert(rounded_polyline(mp, mc, elements_per_segment) =~= rounded_polyline(
        points,
        corners,
        elements_per_segment,
    ).map_values(mv));
}

/// Meshing commutes with mapping a prefix.
proof fn lemma_mesh_prefix_map<P, Q>(h: spec_fn(P) -> Q, vs: Seq<Vertex<P>>, n: usize, m: int)
    requires
        1 <= m <= vs.len(),
    ensures
        mesh_prefix(vs.map_values(|v: Vertex<P>| map_vertex(h, v)), n, m) == mesh_prefix(
            vs,
            n,
            m,
        ).map_values(|mp: MeshPoint<P>| map_mesh(h, mp)),
    decreases m,
{
    let mvs = vs.map_values(|v: Vertex<P>| map_vertex(h, v));
    let mm = |mp: MeshPoint<P>| map_mesh(h, mp);
    if m > 1 {
        lemma_mesh_prefix_map(h, vs, n, m - 1);
        let a = vs[m - 2];
        let b = vs[m - 1];
        assert(mvs[m - 2] == map_vertex(h, a));
        assert(mvs[m - 1] == map_vertex(h, b));
        assert(is_straight_run(mvs[m - 2], mvs[m - 1]) == is_straight_run(a, b));
        assert(mvs[m - 2].spec_point() == h(a.spec_point()));
        assert(mvs[m - 1].spec_point() == h(b.spec_point()));
        assert(mesh_step(mvs[m - 2], mvs[m - 1], n) =~= mesh_step(a, b, n).map_values(mm));
        assert(mesh_prefix(mvs, n, m) =~= mesh_prefix(vs, n, m).map_values(mm));
    } else {
        assert(mvs[0].spec_point() == h(vs[0].spec_point()));
        assert(mesh_prefix(mvs, n, m) =~= mesh_prefix(vs, n, m).map_values(mm));
    }
}

/// Meshing commutes with mapping the points of the vertices.
pub proof fn lemma_meshed_map<P, Q>(h: spec_fn(P) -> Q, vs: Seq<Vertex<P>>, elements_per_segment: usize)
    requires
        vs.len() >= 1,
    ensures
        meshed(vs.map_values(|v: Vertex<P>| map_vertex(h, v)), elements_per_segment) == meshed(
            vs,
            elements_per_segment,
        ).map_values(|mp: MeshPoint<P>| map_mesh(h, mp)),
{
    lemma_mesh_prefix_map(h, vs, straight_pieces(elements_per_segment), vs.len() as int);
}

/// Planning commutes with mapping the points: the plan of a section whose
/// points and corner anchors are mapped by `f` is the plan with every
/// supplied point mapped by `f`, all kinds, arc points and fractions
/// unchanged.
pub proof fn lemma_plan_map<P, Q>(
    f: spec_fn(P) -> Q,
    points: Seq<P>,
    corners: Seq<Corner<P>>,
    elements_per_segment: usize,
)
    requires
        points.len() >= 2,
        corners.len() + 2 == points.len(),
    ensures
        planned(
            points.map_values(f),
            corners.map_values(|c: Corner<P>| map_corner(f, c)),
            elements_per_segment,
        ) == planned(points, corners, elements_per_segment).map_values(
            |mp: MeshPoint<PolyPoint<P>>| map_mesh(|q: PolyPoint<P>| map_poly(f, q), mp),
        ),
{
    let h = |q: PolyPoint<P>| map_poly(f, q);
    let vs = rounded_polyline(points, corners, elements_per_segment);
    lemma_rounded_map(f, points, corners, elements_per_segment);
    super::laws::lemma_rounded_starts_with_first(points, corners, elements_per_segment);
    lemma_meshed_map(h, vs, elements_per_segment);
}

/// The mesh point seen from the other end of the polyline, with the points it
/// refers to mapped by `h`: an interpolation point at `k / n` from `from` to
/// `to` is the point at `(n - k) / n` from `to` to `from`.
pub open spec fn mirror_mesh<P>(h: spec_fn(P) -> P, mp: MeshPoint<P>) -> MeshPoint<P> {
    match mp {
        MeshPoint::At(q) => MeshPoint::At(h(q)),
        MeshPoint::Between { from, to, k, n } => MeshPoint::Between {
            from: h(to),
            to: h(from),
            k: (n - k) as usize,
            n: n,
        },
    }
}

/// Whether the stretch arriving at vertex `i` (from vertex `i - 1`) is
/// straight.
pub open spec fn stretch_is_straight<P>(vs: Seq<Vertex<P>>, i: int) -> bool {
    is_straight_run(vs[i - 1], vs[i])
}

/// `vs2` is `vs1` read backwards: vertex `i` of `vs2` sits at the point of
/// vertex `len - 1 - i` of `vs1` mapped by `h`, and the stretch from vertex
/// `i - 1` to `i` of `vs2` is straight exactly when the stretch it runs
/// along backwards in `vs1` is.
pub open spec fn reversed_as<P>(vs2: Seq<Vertex<P>>, vs1: Seq<Vertex<P>>, h: spec_fn(P) -> P) -> bool {
    &&& vs2.len() == vs1.len()
    &&& forall|i: int|
        0 <= i < vs2.len() ==> #[trigger] vs2[i].spec_point() == h(
            vs1[vs1.len() - 1 - i].spec_point(),
        )
    &&& forall|i: int|
        1 <= i < vs2.len() ==> #[trigger] stretch_is_straight(vs2, i) == stretch_is_straight(
            vs1,
            vs1.len() - i,
        )
}

/// The interior points of a straight run, if the stretch is one.
pub open spec fn run_points<P>(a: Vertex<P>, b: Vertex<P>, n: usize) -> Seq<MeshPoint<P>> {
    if is_straight_run(a, b) {
        run_interior(a.spec_point(), b.spec_point(), n)
    } else {
        Seq::empty()
    }
}

/// A prefix of the mesh only looks at the vertices it covers.
proof fn lemma_mesh_prefix_take<P>(vs: Seq<Vertex<P>>, n: usize, m: int, k: int)
    requires
        1 <= m <= k <= vs.len(),
    ensures
        mesh_prefix(vs.subrange(0, k), n, m) == mesh_prefix(vs, n, m),
    decreases m,
{
    if m > 1 {
        lemma_mesh_prefix_take(vs, n, m - 1, k);
        assert(vs.subrange(0, k)[m - 2] == vs[m - 2]);
        assert(vs.subrange(0, k)[m - 1] == vs[m - 1]);
    } else {
        assert(vs.subrange(0, k)[0] == vs[0]);
    }
}

/// The mesh read from its front: the first vertex, the interior points of the
/// first stretch, then the mesh of the remaining vertices.
proof fn lemma_mesh_prefix_front<P>(vs: Seq<Vertex<P>>, n: usize, m: int)
    requires
        2 <= m <= vs.len(),
    ensures
        mesh_prefix(vs, n, m) == seq![MeshPoint::At(vs[0].spec_point())] + run_points(
            vs[0],
            vs[1],
            n,
        ) + mesh_prefix(vs.subrange(1, vs.len() as int), n, m - 1),
    decreases m,
{
    let rest = vs.subrange(1, vs.len() as int);
    if m > 2 {
        lemma_mesh_prefix_front(vs, n, m - 1);
        assert(rest[m - 3] == vs[m - 2]);
        assert(rest[m - 2] == vs[m - 1]);
        assert(mesh_prefix(vs, n, m) =~= seq![MeshPoint::At(vs[0].spec_point())] + run_points(
            vs[0],
            vs[1],
            n,
        ) + mesh_prefix(rest, n, m - 1));
    } else {
        assert(rest[0] == vs[1]);
        assert(mesh_prefix(vs, n, 1) == seq![MeshPoint::At(vs[0].spec_point())]);
        assert(mesh_prefix(rest, n, 1) == seq![MeshPoint::At(rest[0].spec_point())]);
        assert(mesh_step(vs[0], vs[1], n) == run_points(vs[0], vs[1], n).push(
            MeshPoint::At(vs[1].spec_point()),
        ));
        assert(mesh_prefix(vs, n, m) =~= seq![MeshPoint::At(vs[0].spec_point())] + run_points(
            vs[0],
            vs[1],
            n,
        ) + mesh_prefix(rest, n, m - 1));
    }
}

/// Reading a concatenation backwards.
proof fn lemma_reverse_map_add<P>(a: Seq<MeshPoint<P>>, b: Seq<MeshPoint<P>>, h: spec_fn(P) -> P)
    ensures
        (a + b).reverse().map_values(|mp: MeshPoint<P>| mirror_mesh(h, mp)) == b.reverse().map_values(
            |mp: MeshPoint<P>| mirror_mesh(h, mp),
        ) + a.reverse().map_values(|mp: MeshPoint<P>| mirror_mesh(h, mp)),
{
    assert((a + b).reverse().map_values(|mp: MeshPoint<P>| mirror_mesh(h, mp)) =~= b.reverse().map_values(
        |mp: MeshPoint<P>| mirror_mesh(h, mp),
    ) + a.reverse().map_values(|mp: MeshPoint<P>| mirror_mesh(h, mp)));
}

/// Meshing commutes with reading the polyline backwards.
proof fn lemma_mesh_reversed<P>(vs2: Seq<Vertex<P>>, vs1: Seq<Vertex<P>>, h: spec_fn(P) -> P, n: usize)
    requires
        vs1.len() >= 1,
        n >= 1,
        reversed_as(vs2, vs1, h),
    ensures
        mesh_prefix(vs2, n, vs2.len() as int) == mesh_prefix(vs1, n, vs1.len() as int).reverse().map_values(
            |mp: MeshPoint<P>| mirror_mesh(h, mp),
        ),
    decreases vs1.len(),
{
    let len = vs1.len() as int;
    let mm = |mp: MeshPoint<P>| mirror_mesh(h, mp);
    if len == 1 {
        assert(vs2[0].spec_point() == h(vs1[0].spec_point()));
        assert(mesh_prefix(vs2, n, 1) =~= mesh_prefix(vs1, n, 1).reverse().map_values(mm));
    } else {
        let s2 = vs2.subrange(1, len);
        let s1 = vs1.subrange(0, len - 1);
        assert forall|i: int| 0 <= i < s2.len() implies #[trigger] s2[i].spec_point() == h(
            s1[s1.len() - 1 - i].spec_point(),
        ) by {
            assert(s2[i] == vs2[i + 1]);
            assert(s1[s1.len() - 1 - i] == vs1[len - 1 - (i + 1)]);
            assert(vs2[i + 1].spec_point() == h(vs1[len - 1 - (i + 1)].spec_point()));
        }
        assert forall|i: int| 1 <= i < s2.len() implies #[trigger] stretch_is_straight(s2, i)
            == stretch_is_straight(s1, s1.len() - i) by {
            assert(stretch_is_straight(vs2, i + 1) == stretch_is_straight(vs1, len - (i + 1)));
            assert(s2[i - 1] == vs2[i] && s2[i] == vs2[i + 1]);
            assert(s1[s1.len() - i - 1] == vs1[len - (i + 1) - 1]);
            assert(s1[s1.len() - i] == vs1[len - (i + 1)]);
        }
        lemma_mesh_reversed(s2, s1, h, n);
        lemma_mesh_prefix_take(vs1, n, len - 1, len - 1);
        lemma_mesh_prefix_front(vs2, n, len);
        let front = mesh_prefix(vs1, n, len - 1);
        let a = vs1[len - 2];
        let b = vs1[len - 1];
        assert(stretch_is_straight(vs2, 1) == stretch_is_straight(vs1, len - 1));
        assert(is_straight_run(vs2[0], vs2[1]) == is_straight_run(a, b));
        assert(vs2[0].spec_point() == h(b.spec_point()));
        assert(vs2[1].spec_point() == h(a.spec_point()));
        assert(mesh_step(a, b, n) == run_points(a, b, n).push(MeshPoint::At(b.spec_point())));
        assert(run_points(a, b, n).reverse().map_values(mm) =~= run_points(vs2[0], vs2[1], n));
        assert(mesh_prefix(vs1, n, len) == front + (run_points(a, b, n) + seq![
            MeshPoint::At(b.spec_point()),
        ]));
        lemma_reverse_map_add(front, run_points(a, b, n) + seq![MeshPoint::At(b.spec_point())], h);
        lemma_reverse_map_add(run_points(a, b, n), seq![MeshPoint::At(b.spec_point())], h);
        assert(seq![MeshPoint::At(b.spec_point())].reverse().map_values(mm) =~= seq![
            MeshPoint::At(vs2[0].spec_point()),
        ]);
    }
}

/// Meshing a polyline read backwards gives its mesh read backwards: the same
/// points in reverse order, each interpolation point at `k / n` from `a` to
/// `b` becoming the point at `(n - k) / n` from `b` to `a`.
pub proof fn lemma_meshed_reversed<P>(
    vs2: Seq<Vertex<P>>,
    vs1: Seq<Vertex<P>>,
    h: spec_fn(P) -> P,
    elements_per_segment: usize,
)
    requires
        vs1.len() >= 1,
        reversed_as(vs2, vs1, h),
    ensures
        meshed(vs2, elements_per_segment) == meshed(vs1, elements_per_segment).reverse().map_values(
            |mp: MeshPoint<P>| mirror_mesh(h, mp),
        ),
{
    lemma_mesh_reversed(vs2, vs1, h, straight_pieces(elements_per_segment));
}

/// The corner seen from the other end of the polyline: its arc runs from its
/// old end anchor to its old start anchor.
pub open spec fn reverse_corner<P>(c: Corner<P>) -> Corner<P> {
    match c {
        Corner::Sharp => Corner::Sharp,
        Corner::Rounded { start, end, n_by_angle } => Corner::Rounded {
            start: end,
            end: start,
            n_by_angle: n_by_angle,
        },
    }
}

/// The corners of the polyline read backwards.
pub open spec fn reversed_corners<P>(corners: Seq<Corner<P>>) -> Seq<Corner<P>> {
    Seq::new(corners.len(), |i: int| reverse_corner(corners[corners.len() - 1 - i]))
}

/// The polyline point seen from the other end of a polyline with
/// `n_corners` corners: the point at `k / n` of the arc of corner `j` is the
/// point at `(n - k) / n` of the arc of corner `n_corners - 1 - j`.
pub open spec fn mirror_poly<P>(n_corners: int, q: PolyPoint<P>) -> PolyPoint<P> {
    match q {
        PolyPoint::Given(p) => PolyPoint::Given(p),
        PolyPoint::OnArc { corner, k, n } => PolyPoint::OnArc {
            corner: (n_corners - 1 - corner) as usize,
            k: (n - k) as usize,
            n: n,
        },
    }
}

/// Vertex counts of the corners read backwards.
proof fn lemma_reversed_counts<P>(corners: Seq<Corner<P>>, elements_per_segment: usize, m: int)
    requires
        0 <= m <= corners.len(),
    ensures
        corners_vertex_count(reversed_corners(corners), m, elements_per_segment)
            + corners_vertex_count(corners, corners.len() - m, elements_per_segment)
            == corners_vertex_count(corners, corners.len() as int, elements_per_segment),
    decreases m,
{
    let rc = reversed_corners(corners);
    if m > 0 {
        lemma_reversed_counts(corners, elements_per_segment, m - 1);
        assert(rc[m - 1] == reverse_corner(corners[corners.len() - 1 - (m - 1)]));
        assert(corner_vertex_count(rc, m - 1, elements_per_segment) == corner_vertex_count(
            corners,
            corners.len() - m,
            elements_per_segment,
        ));
    }
}

/// Every inner vertex of the rounded polyline belongs to a corner.
proof fn lemma_locate<P>(corners: Seq<Corner<P>>, elements_per_segment: usize, m: int, i: int)
    requires
        0 <= m <= corners.len(),
        1 <= i < 1 + corners_vertex_count(corners, m, elements_per_segment),
    ensures
        exists|j: int|
            0 <= j < m && #[trigger] corner_start(corners, j, elements_per_segment) <= i < corner_start(
                corners,
                j,
                elements_per_segment,
            ) + corner_vertex_count(corners, j, elements_per_segment),
    decreases m,
{
    if i < 1 + corners_vertex_count(corners, m - 1, elements_per_segment) {
        lemma_locate(corners, elements_per_segment, m - 1, i);
    } else {
        assert(corner_start(corners, m - 1, elements_per_segment) <= i < corner_start(
            corners,
            m - 1,
            elements_per_segment,
        ) + corner_vertex_count(corners, m - 1, elements_per_segment));
    }
}

/// The corner an inner vertex of the rounded polyline belongs to.
pub open spec fn corner_of<P>(corners: Seq<Corner<P>>, elements_per_segment: usize, i: int) -> int {
    choose|j: int|
        0 <= j < corners.len() && #[trigger] corner_start(corners, j, elements_per_segment) <= i < corner_start(
            corners,
            j,
            elements_per_segment,
        ) + corner_vertex_count(corners, j, elements_per_segment)
}

/// The kinds of the vertices of a corner: only the last one is `Straight`,
/// and the first one closes a straight run.
proof fn lemma_corner_kinds<P>(
    points: Seq<P>,
    corners: Seq<Corner<P>>,
    elements_per_segment: usize,
    j: int,
    k: int,
)
    requires
        0 <= j < corners.len(),
        0 <= k < corner_vertex_count(corners, j, elements_per_segment),
    ensures
        (corner_vertices(points, corners, j, elements_per_segment)[k] is Straight) == (k
            == corner_vertex_count(corners, j, elements_per_segment) - 1),
        k == 0 ==> corner_vertices(points, corners, j, elements_per_segment)[k].spec_closes_straight(),
{
    if corners[j] is Rounded {
        lemma_rounded_corner_pieces(points, corners, j, elements_per_segment);
    }
}

/// The vertices of corner `j`, read backwards, are the vertices of the
/// reversed corner of the reversed polyline, with mirrored points.
proof fn lemma_corner_reversed_points<P>(
    points: Seq<P>,
    corners: Seq<Corner<P>>,
    elements_per_segment: usize,
    j: int,
    k: int,
)
    requires
        corners.len() + 2 == points.len(),
        points.len() <= usize::MAX,
        0 <= j < corners.len(),
        0 <= k < corner_vertex_count(corners, j, elements_per_segment),
    ensures
        corner_vertex_count(reversed_corners(corners), corners.len() - 1 - j, elements_per_segment)
            == corner_vertex_count(corners, j, elements_per_segment),
        corner_vertices(
            points.reverse(),
            reversed_corners(corners),
            corners.len() - 1 - j,
            elements_per_segment,
        )[corner_vertex_count(corners, j, elements_per_segment) - 1 - k].spec_point()
            == mirror_poly(
            corners.len() as int,
            corner_vertices(points, corners, j, elements_per_segment)[k].spec_point(),
        ),
{
    let c = corners.len() as int;
    let rp = points.reverse();
    let rc = reversed_corners(corners);
    let j2 = c - 1 - j;
    assert(rc[j2] == reverse_corner(corners[j]));
    if corners[j] is Rounded {
        lemma_rounded_corner_pieces(points, corners, j, elements_per_segment);
        lemma_rounded_corner_pieces(rp, rc, j2, elements_per_segment);
    } else {
        assert(rp[j2 + 1] == points[j + 1]);
    }
}

/// In the rounded polyline, a stretch is straight exactly when it leaves a
/// `Straight` vertex.
proof fn lemma_stretch_straight<P>(
    points: Seq<P>,
    corners: Seq<Corner<P>>,
    elements_per_segment: usize,
    i: int,
)
    requires
        points.len() >= 2,
        corners.len() + 2 == points.len(),
        1 <= i < rounded_polyline(points, corners, elements_per_segment).len(),
    ensures
        stretch_is_straight(rounded_polyline(points, corners, elements_per_segment), i) == (
        rounded_polyline(points, corners, elements_per_segment)[i - 1] is Straight),
{
    let vs = rounded_polyline(points, corners, elements_per_segment);
    let c = corners.len() as int;
    let t = corners_vertex_count(corners, c, elements_per_segment) as int;
    lemma_rounded_len(points, corners, elements_per_segment);
    lemma_rounded_starts_with_first(points, corners, elements_per_segment);
    if vs[i - 1] is Straight && i < vs.len() - 1 {
        lemma_locate(corners, elements_per_segment, c, i);
        let j = corner_of(corners, elements_per_segment, i);
        let s = corner_start(corners, j, elements_per_segment);
        let k = i - s;
        lemma_corner_in_rounded(points, corners, j, elements_per_segment);
        lemma_corner_kinds(points, corners, elements_per_segment, j, k);
        if k > 0 {
            lemma_corner_kinds(points, corners, elements_per_segment, j, k - 1);
            assert(vs[s + (k - 1)] == corner_vertices(points, corners, j, elements_per_segment)[k
                - 1]);
        }
    }
}

/// Rounding the polyline read backwards gives the rounded polyline read
/// backwards: every corner yields the same two anchors, swapped, and its arc
/// points in reverse order (the point at `k / n` of the arc becomes the point
/// at `(n - k) / n` of the reversed corner's arc), and the same stretches are
/// straight.
pub proof fn lemma_rounded_reversed<P>(
    points: Seq<P>,
    corners: Seq<Corner<P>>,
    elements_per_segment: usize,
)
    requires
        points.len() >= 2,
        corners.len() + 2 == points.len(),
        points.len() <= usize::MAX,
    ensures
        reversed_as(
            rounded_polyline(points.reverse(), reversed_corners(corners), elements_per_segment),
            rounded_polyline(points, corners, elements_per_segment),
            |q: PolyPoint<P>| mirror_poly(corners.len() as int, q),
        ),
{
    let c = corners.len() as int;
    let rp = points.reverse();
    let rc = reversed_corners(corners);
    let vs1 = rounded_polyline(points, corners, elements_per_segment);
    let vs2 = rounded_polyline(rp, rc, elements_per_segment);
    let h = |q: PolyPoint<P>| mirror_poly(c, q);
    let t = corners_vertex_count(corners, c, elements_per_segment) as int;
    lemma_rounded_len(points, corners, elements_per_segment);
    lemma_rounded_len(rp, rc, elements_per_segment);
    lemma_reversed_counts(corners, elements_per_segment, c);
    lemma_rounded_starts_with_first(points, corners, elements_per_segment);
    lemma_rounded_starts_with_first(rp, rc, elements_per_segment);
    let len = vs1.len() as int;
    assert(len == t + 2);
    assert(vs2.len() == len);
    // Inner vertex `i` of `vs1`, in corner `j` at offset `k`, is read back as
    // vertex `len - 1 - i` of `vs2`, in the reversed corner at offset
    // `count - 1 - k`.
    assert forall|i: int| 1 <= i <= t implies {
        &&& #[trigger] vs2[len - 1 - i].spec_point() == h(vs1[i].spec_point())
        &&& (vs2[len - 1 - i] is Straight) == (i == corner_start(
            corners,
            corner_of(corners, elements_per_segment, i),
            elements_per_segment,
        ))
    } by {
        lemma_locate(corners, elements_per_segment, c, i);
        let j = corner_of(corners, elements_per_segment, i);
        let s = corner_start(corners, j, elements_per_segment);
        let k = i - s;
        let cnt = corner_vertex_count(corners, j, elements_per_segment) as int;
        let j2 = c - 1 - j;
        lemma_reversed_counts(corners, elements_per_segment, j2);
        assert(corners_vertex_count(corners, j + 1, elements_per_segment)
            == corners_vertex_count(corners, j, elements_per_segment) + cnt);
        lemma_corner_in_rounded(points, corners, j, elements_per_segment);
        lemma_corner_in_rounded(rp, rc, j2, elements_per_segment);
        lemma_corner_reversed_points(points, corners, elements_per_segment, j, k);
        lemma_corner_kinds(rp, rc, elements_per_segment, j2, cnt - 1 - k);
        let s2 = corner_start(rc, j2, elements_per_segment);
        assert(s2 + (cnt - 1 - k) == len - 1 - i);
        assert(vs1[s + k] == corner_vertices(points, corners, j, elements_per_segment)[k]);
        assert(vs2[s2 + (cnt - 1 - k)] == corner_vertices(rp, rc, j2, elements_per_segment)[cnt
            - 1 - k]);
    }
    assert forall|i2: int| 0 <= i2 < len implies #[trigger] vs2[i2].spec_point() == h(
        vs1[len - 1 - i2].spec_point(),
    ) by {
        if i2 == 0 {
            assert(rp[0] == points.last());
        } else if i2 == len - 1 {
            assert(rp.last() == points[0]);
        } else {
            let i = len - 1 - i2;
            assert(vs2[len - 1 - i].spec_point() == h(vs1[i].spec_point()));
        }
    }
    // A vertex of `vs2` is `Straight` exactly when the vertex of `vs1` just
    // before its counterpart is.
    assert forall|i2: int| 0 <= i2 <= len - 2 implies (#[trigger] vs2[i2] is Straight) == (vs1[len
        - 2 - i2] is Straight) by {
        if i2 == 0 {
            if c > 0 {
                lemma_corner_in_rounded(points, corners, c - 1, elements_per_segment);
                let cnt = corner_vertex_count(corners, c - 1, elements_per_segment) as int;
                lemma_corner_kinds(points, corners, elements_per_segment, c - 1, cnt - 1);
                assert(corner_start(corners, c - 1, elements_per_segment) + (cnt - 1) == len - 2);
            }
        } else {
            let i = len - 1 - i2;
            lemma_locate(corners, elements_per_segment, c, i);
            let j = corner_of(corners, elements_per_segment, i);
            let s = corner_start(corners, j, elements_per_segment);
            let k = i - s;
            assert(vs2[len - 1 - i].spec_point() == h(vs1[i].spec_point()));
            assert((vs2[len - 1 - i] is Straight) == (i == s));
            lemma_corner_in_rounded(points, corners, j, elements_per_segment);
            if k > 0 {
                lemma_corner_kinds(points, corners, elements_per_segment, j, k - 1);
                assert(vs1[s + (k - 1)] == corner_vertices(points, corners, j, elements_per_segment)[k
                    - 1]);
            } else if j > 0 {
                lemma_corner_in_rounded(points, corners, j - 1, elements_per_segment);
                let cnt = corner_vertex_count(corners, j - 1, elements_per_segment) as int;
                lemma_corner_kinds(points, corners, elements_per_segment, j - 1, cnt - 1);
                assert(corner_start(corners, j - 1, elements_per_segment) + (cnt - 1) == i - 1);
            }
        }
    }
    assert forall|i: int| 1 <= i < len implies #[trigger] stretch_is_straight(vs2, i)
        == stretch_is_straight(vs1, len - i) by {
        lemma_stretch_straight(rp, rc, elements_per_segment, i);
        lemma_stretch_straight(points, corners, elements_per_segment, len - i);
        assert((vs2[i - 1] is Straight) == (vs1[len - 2 - (i - 1)] is Straight));
    }
}

/// The plan of the polyline read backwards is the plan read backwards: the
/// same points in reverse order, arc points and interpolation points at
/// fraction `k / n` becoming those at `(n - k) / n` from the other side, and
/// corner `j` becoming corner `corners.len() - 1 - j`.
pub proof fn lemma_plan_reversed<P>(
    points: Seq<P>,
    corners: Seq<Corner<P>>,
    elements_per_segment: usize,
)
    requires
        points.len() >= 2,
        corners.len() + 2 == points.len(),
        points.len() <= usize::MAX,
    ensures
        planned(points.reverse(), reversed_corners(corners), elements_per_segment) == planned(
            points,
            corners,
            elements_per_segment,
        ).reverse().map_values(
            |mp: MeshPoint<PolyPoint<P>>|
                mirror_mesh(|q: PolyPoint<P>| mirror_poly(corners.len() as int, q), mp),
        ),
{
    lemma_rounded_reversed(points, corners, elements_per_segment);
    lemma_rounded_starts_with_first(points, corners, elements_per_segment);
    lemma_meshed_reversed(
        rounded_polyline(points.reverse(), reversed_corners(corners), elements_per_segment),
        rounded_polyline(points, corners, elements_per_segment),
        |q: PolyPoint<P>| mirror_poly(corners.len() as int, q),
        elements_per_segment,
    );
}

} // verus!
