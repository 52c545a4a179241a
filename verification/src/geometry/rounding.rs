//! Replacing the interior vertices of a polyline by circular arcs.
use vstd::prelude::*;

verus! {

/// A vertex of a rounded polyline: a corner anchor on a straight portion, the
/// anchor where an arc starts, or a point that lies on an arc.
///
/// Only the stretch between a vertex that opens a straight run (`Straight`)
/// and the next vertex that closes one (`Straight` or `ArcStart`) is a
/// straight line to be densified; every other stretch is part of an arc.
#[derive(Debug, Clone, Copy, PartialEq)]
pub enum Vertex<P> {
    /// Endpoint of straight segments on both sides.
    Straight(P),
    /// The start of an arc: a straight segment comes in, the arc goes out.
    ArcStart(P),
    /// A point already lying on an arc: emitted as-is (no further subdivision).
    Arc(P),
}

impl<P> Vertex<P> {
    /// The point this vertex sits at.
    pub open spec fn spec_point(self) -> P {
        match self {
            Vertex::Straight(p) => p,
            Vertex::ArcStart(p) => p,
            Vertex::Arc(p) => p,
        }
    }

    /// Whether the stretch leaving this vertex is straight.
    pub open spec fn spec_opens_straight(self) -> bool {
        self is Straight
    }

    /// Whether the stretch arriving at this vertex is straight.
    pub open spec fn spec_closes_straight(self) -> bool {
        self is Straight || self is ArcStart
    }
}

/// Whether the stretch from `prev` to the next vertex `here` is a straight
/// run (and not part of an arc).
pub open spec fn is_straight_run<P>(prev: Vertex<P>, here: Vertex<P>) -> bool {
    prev.spec_opens_straight() && here.spec_closes_straight()
}

/// A stretch is straight exactly when it leaves a `Straight` vertex and does
/// not arrive at an arc point: a stretch leaving an arc start or an arc point,
/// or arriving at an arc point, is part of an arc.
pub proof fn lemma_straight_run_kinds<P>(prev: Vertex<P>, here: Vertex<P>)
    ensures
        is_straight_run(prev, here) == (prev is Straight && !(here is Arc)),
{
}

impl<P: Copy> Vertex<P> {
    /// The point this vertex sits at.
    pub fn point(self) -> (p: P)
        ensures
            p == self.spec_point(),
    {
        match self {
            Vertex::Straight(p) => p,
            Vertex::ArcStart(p) => p,
            Vertex::Arc(p) => p,
        }
    }

    /// Whether the stretch leaving this vertex is straight.
    pub fn opens_straight(self) -> (b: bool)
        ensures
            b == self.spec_opens_straight(),
            b == (self is Straight),
    {
        match self {
            Vertex::Straight(_) => true,
            Vertex::ArcStart(_) => false,
            Vertex::Arc(_) => false,
        }
    }

    /// Whether the stretch arriving at this vertex is straight.
    pub fn closes_straight(self) -> (b: bool)
        ensures
            b == self.spec_closes_straight(),
            b == !(self is Arc),
    {
        match self {
            Vertex::Straight(_) => true,
            Vertex::ArcStart(_) => true,
            Vertex::Arc(_) => false,
        }
    }
}

/// What becomes of one interior vertex of the sharp-corner polyline.
///
/// The geometry of a rounded corner (where the arc starts and ends on the two
/// adjacent edges, and how many pieces its bend angle alone asks for) is
/// measured by the caller; the library decides how the corner is emitted.
#[derive(Debug, Clone, Copy, PartialEq)]
pub enum Corner<P> {
    /// The vertex stays sharp (zero radius, or collinear edges).
    Sharp,
    /// The vertex is replaced by an arc from `start` (on the incoming edge) to
    /// `end` (on the outgoing edge). `n_by_angle` is the number of pieces the
    /// bend angle asks for: at least 4 per 90 degrees.
    Rounded { start: P, end: P, n_by_angle: usize },
}

/// A point of the rounded polyline: either a point the caller supplied, or
/// the point at fraction `k / n` of the sweep of the arc of corner `corner`
/// (corners counted from 0, in polyline order).
#[derive(Debug, Clone, Copy, PartialEq)]
pub enum PolyPoint<P> {
    Given(P),
    OnArc { corner: usize, k: usize, n: usize },
}

/// The larger of two counts.
pub open spec fn max_count(a: usize, b: usize) -> usize {
    if a >= b { a } else { b }
}

/// Number of pieces of an arc: the pieces its bend angle asks for, at least
/// `elements_per_segment`, and at least one.
pub open spec fn arc_pieces(n_by_angle: usize, elements_per_segment: usize) -> usize {
    max_count(max_count(n_by_angle, elements_per_segment), 1)
}

/// Number of pieces of an arc: `max(n_by_angle, elements_per_segment, 1)`, so
/// every 90 degrees of bend contributes at least 4 sub-elements and every arc
/// at least `elements_per_segment`.
///
/// Arcs are held to the same least number of pieces as straight segments:
/// `elements_per_segment` counts the pieces of every segment of the section,
/// straight or curved. This is this library's rule; beyond "at least 4 pieces
/// per 90 degrees", how finely an arc is split by a per-segment count is a
/// choice, and this is the one made here.
pub fn arc_piece_count(n_by_angle: usize, elements_per_segment: usize) -> (n: usize)
    ensures
        n == arc_pieces(n_by_angle, elements_per_segment),
        n >= n_by_angle,
        n >= elements_per_segment,
        n >= 1,
        n == n_by_angle || n == elements_per_segment || n == 1,
{
    let m = if n_by_angle >= elements_per_segment {
        n_by_angle
    } else {
        elements_per_segment
    };
    if m >= 1 {
        m
    } else {
        1
    }
}

/// The interior points of the arc of corner `corner`, split into `n` pieces:
/// the points at fractions `1/n, ..., (n-1)/n` of the sweep.
pub open spec fn arc_interior<P>(corner: int, n: usize) -> Seq<Vertex<PolyPoint<P>>> {
    Seq::new(
        (n - 1) as nat,
        |k: int| Vertex::Arc(PolyPoint::OnArc { corner: corner as usize, k: (k + 1) as usize, n: n }),
    )
}

/// The vertices emitted for corner `j` (the interior vertex `points[j + 1]`).
pub open spec fn corner_vertices<P>(
    points: Seq<P>,
    corners: Seq<Corner<P>>,
    j: int,
    elements_per_segment: usize,
) -> Seq<Vertex<PolyPoint<P>>> {
    match corners[j] {
        Corner::Sharp => seq![Vertex::Straight(PolyPoint::Given(points[j + 1]))],
        Corner::Rounded { start, end, n_by_angle } => seq![
            Vertex::ArcStart(PolyPoint::Given(start)),
        ] + arc_interior(j, arc_pieces(n_by_angle, elements_per_segment)) + seq![
            Vertex::Straight(PolyPoint::Given(end)),
        ],
    }
}

/// The first point, followed by the vertices of the first `m` corners.
pub open spec fn rounded_prefix<P>(
    points: Seq<P>,
    corners: Seq<Corner<P>>,
    elements_per_segment: usize,
    m: int,
) -> Seq<Vertex<PolyPoint<P>>>
    decreases m,
{
    if m <= 0 {
        seq![Vertex::Straight(PolyPoint::Given(points[0]))]
    } else {
        rounded_prefix(points, corners, elements_per_segment, m - 1) + corner_vertices(
            points,
            corners,
            m - 1,
            elements_per_segment,
        )
    }
}

/// The rounded polyline: the first point, the vertices of every corner in
/// order, and the last point. Both endpoints stay sharp.
pub open spec fn rounded_polyline<P>(
    points: Seq<P>,
    corners: Seq<Corner<P>>,
    elements_per_segment: usize,
) -> Seq<Vertex<PolyPoint<P>>> {
    rounded_prefix(points, corners, elements_per_segment, corners.len() as int).push(
        Vertex::Straight(PolyPoint::Given(points.last())),
    )
}

/// Replace each interior vertex of `points` as its corner says: a sharp
/// corner keeps the vertex; a rounded one becomes its start-of-arc anchor on
/// the incoming edge, the `n_arc - 1` interior arc points, and its end-of-arc
/// anchor on the outgoing edge, so that its arc has `n_arc` pieces, with
/// `n_arc = max(n_by_angle, elements_per_segment, 1)`.
/// `corners[j]` describes the interior vertex `points[j + 1]`.
pub fn round_polyline<P: Copy>(
    points: &[P],
    corners: &[Corner<P>],
    elements_per_segment: usize,
) -> (out: Vec<Vertex<PolyPoint<P>>>)
    requires
        points@.len() >= 2,
        corners@.len() + 2 == points@.len(),
    ensures
        out@ == rounded_polyline(points@, corners@, elements_per_segment),
        super::laws::is_rounding_of(out@, points@, corners@, elements_per_segment),
{
    let mut out: Vec<Vertex<PolyPoint<P>>> = Vec::new();
    out.push(Vertex::Straight(PolyPoint::Given(points[0])));
    let n_corners = corners.len();
    for j in 0..n_corners
        invariant
            n_corners == corners@.len(),
            corners@.len() + 2 == points@.len(),
            out@ == rounded_prefix(points@, corners@, elements_per_segment, j as int),
    {
        let ghost before = out@;
        match corners[j] {
            Corner::Sharp => {
                out.push(Vertex::Straight(PolyPoint::Given(points[j + 1])));
            },
            Corner::Rounded { start, end, n_by_angle } => {
                let n_arc = arc_piece_count(n_by_angle, elements_per_segment);
                out.push(Vertex::ArcStart(PolyPoint::Given(start)));
                for k in 1..n_arc
                    invariant
                        n_arc >= 1,
                        j < n_corners,
                        out@ == before + seq![Vertex::ArcStart(PolyPoint::Given(start))]
                            + arc_interior::<P>(j as int, n_arc).take(k - 1),
                {
                    out.push(Vertex::Arc(PolyPoint::OnArc { corner: j, k: k, n: n_arc }));
                    assert(arc_interior::<P>(j as int, n_arc).take(k as int) =~= arc_interior::<P>(
                        j as int,
                        n_arc,
                    ).take(k - 1).push(
                        Vertex::Arc(PolyPoint::OnArc { corner: j, k: k, n: n_arc }),
                    ));
                }
                assert(arc_interior::<P>(j as int, n_arc).take(n_arc - 1) =~= arc_interior::<P>(
                    j as int,
                    n_arc,
                ));
                out.push(Vertex::Straight(PolyPoint::Given(end)));
            },
        }
        assert(out@ =~= rounded_prefix(points@, corners@, elements_per_segment, j + 1));
    }
    out.push(Vertex::Straight(PolyPoint::Given(points[points.len() - 1])));
    proof {
        super::laws::lemma_rounded_closed_form(points@, corners@, elements_per_segment);
    }
    out
}

} // verus!
