//! Densifying the straight runs of a rounded polyline.
use vstd::prelude::*;

use super::rounding::{Vertex, is_straight_run};

verus! {

/// A point of the meshed polyline: a vertex of the rounded polyline, or the
/// point at fraction `k / n` of the way from `from` to `to`.
#[derive(Debug, Clone, Copy, PartialEq)]
pub enum MeshPoint<P> {
    At(P),
    Between { from: P, to: P, k: usize, n: usize },
}

/// Number of equal pieces of every straight run: `elements_per_segment`, and
/// at least 2.
pub open spec fn straight_pieces(elements_per_segment: usize) -> usize {
    if elements_per_segment >= 2 { elements_per_segment } else { 2 }
}

/// Number of equal pieces of every straight run: `max(2, elements_per_segment)`.
pub fn straight_piece_count(elements_per_segment: usize) -> (n: usize)
    ensures
        n == straight_pieces(elements_per_segment),
        n >= 2,
        n >= elements_per_segment,
        elements_per_segment >= 2 ==> n == elements_per_segment,
        elements_per_segment < 2 ==> n == 2,
{
    if elements_per_segment >= 2 {
        elements_per_segment
    } else {
        2
    }
}

/// The interior points of the straight run from `from` to `to`, split into
/// `n` equal pieces: the points at fractions `1/n, ..., (n-1)/n`.
pub open spec fn run_interior<P>(from: P, to: P, n: usize) -> Seq<MeshPoint<P>> {
    Seq::new(
        (n - 1) as nat,
        |k: int| MeshPoint::Between { from: from, to: to, k: (k + 1) as usize, n: n },
    )
}

/// What the step from vertex `prev` to vertex `here` adds: the interior points
/// of the run when the stretch between them is straight, then `here` itself.
pub open spec fn mesh_step<P>(prev: Vertex<P>, here: Vertex<P>, n: usize) -> Seq<MeshPoint<P>> {
    if is_straight_run(prev, here) {
        run_interior(prev.spec_point(), here.spec_point(), n).push(MeshPoint::At(here.spec_point()))
    } else {
        seq![MeshPoint::At(here.spec_point())]
    }
}

/// The meshed form of the first `m` vertices of `vs` (`m >= 1`).
pub open spec fn mesh_prefix<P>(vs: Seq<Vertex<P>>, n: usize, m: int) -> Seq<MeshPoint<P>>
    decreases m,
{
    if m <= 1 {
        seq![MeshPoint::At(vs[0].spec_point())]
    } else {
        mesh_prefix(vs, n, m - 1) + mesh_step(vs[m - 2], vs[m - 1], n)
    }
}

/// The meshed polyline: every vertex in order, with each straight run between
/// two consecutive vertices split into
/// `straight_pieces(elements_per_segment)` equal pieces.
pub open spec fn meshed<P>(vs: Seq<Vertex<P>>, elements_per_segment: usize) -> Seq<MeshPoint<P>> {
    mesh_prefix(vs, straight_pieces(elements_per_segment), vs.len() as int)
}

/// Walk the rounded polyline, subdividing every straight run (from a
/// `Straight` vertex to the next `Straight` or `ArcStart` vertex) into
/// `max(2, elements_per_segment)` equal pieces. The stretches of an arc are
/// not subdivided.
pub fn mesh<P: Copy>(vertices: &[Vertex<P>], elements_per_segment: usize) -> (out: Vec<
    MeshPoint<P>,
>)
    requires
        vertices@.len() >= 1,
    ensures
        out@ == meshed(vertices@, elements_per_segment),
        super::laws::is_mesh_of(
            out@,
            vertices@,
            if elements_per_segment >= 2 {
                elements_per_segment as int
            } else {
                2
            },
        ),
{
    let n = straight_piece_count(elements_per_segment);
    let mut out: Vec<MeshPoint<P>> = Vec::new();
    out.push(MeshPoint::At(vertices[0].point()));
    let len = vertices.len();
    for i in 1..len
        invariant
            len == vertices@.len(),
            n == straight_pieces(elements_per_segment),
            out@ == mesh_prefix(vertices@, n, i as int),
    {
        let ghost before = out@;
        let prev = vertices[i - 1];
        let here = vertices[i];
        if prev.opens_straight() && here.closes_straight() {
            let a = prev.point();
            let b = here.point();
            for k in 1..n
                invariant
                    n >= 2,
                    out@ == before + run_interior(a, b, n).take(k - 1),
            {
                out.push(MeshPoint::Between { from: a, to: b, k: k, n: n });
                assert(run_interior(a, b, n).take(k as int) =~= run_interior(a, b, n).take(
                    k - 1,
                ).push(MeshPoint::Between { from: a, to: b, k: k, n: n }));
            }
            assert(run_interior(a, b, n).take(n - 1) =~= run_interior(a, b, n));
        }
        out.push(MeshPoint::At(here.point()));
        assert(out@ =~= mesh_prefix(vertices@, n, i + 1));
    }
    proof {
        super::laws::lemma_meshed_entries(vertices@, elements_per_segment);
    }
    out
}

} // verus!
