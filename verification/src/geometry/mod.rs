//! Section geometry construction.
//!
//! Given an ordered polyline of *sharp-corner* centerline points and a single
//! corner radius, a CUFSM-compatible finite-strip model (nodes + elements) is
//! produced by:
//!
//! 1. computing the deflection angle at each interior vertex,
//! 2. trimming each adjacent edge by `offset = r * tan(bend / 2)`,
//! 3. inserting intermediate points along the resulting circular arc (at least
//!    4 sub-elements per 90 degrees of bend, and at least
//!    `elements_per_segment`), and
//! 4. subdividing each straight portion into `max(2, elements_per_segment)`
//!    equal pieces.
//!
//! Steps 1 and 2 and the coordinates of arc and interpolation points are
//! numeric work on the caller's point type; this module decides everything
//! else: which vertices the rounded polyline has ([`rounding`]), how its
//! straight runs are subdivided ([`mesh`]), and in which order the points of
//! the model come ([`section_plan`]).
pub mod laws;
pub mod mesh;
pub mod rounding;
pub mod symmetry;
pub mod vec2;

pub use vec2::{Vec2, points_from_interleaved};

use vstd::prelude::*;

use crate::cufsm::{
    DEFAULT_MATERIAL,
    ElementRow,
    FiniteStripModel,
    NodeRow,
    chain_element_count,
    element_row_at,
    is_open_chain,
    node_row_at,
};
use mesh::{MeshPoint, mesh, meshed};
use rounding::{Corner, PolyPoint, round_polyline, rounded_polyline};

verus! {

/// Whether a section can be built from `n_points` sharp-corner points with
/// `elements_per_segment` pieces per segment: it needs at least two points and
/// at least one piece per segment.
pub open spec fn valid_section_input(n_points: nat, elements_per_segment: nat) -> bool {
    n_points >= 2 && elements_per_segment > 0
}

/// Whether a section can be built from `n_points` sharp-corner points with
/// `elements_per_segment` pieces per segment.
pub fn is_valid_section_input(n_points: usize, elements_per_segment: usize) -> (ok: bool)
    ensures
        ok == valid_section_input(n_points as nat, elements_per_segment as nat),
        ok == (n_points >= 2 && elements_per_segment > 0),
{
    n_points >= 2 && elements_per_segment > 0
}

/// The points of the finite-strip model of a section, in order: the rounded
/// polyline of `points` and `corners`, meshed with `elements_per_segment`.
pub open spec fn planned<P>(
    points: Seq<P>,
    corners: Seq<Corner<P>>,
    elements_per_segment: usize,
) -> Seq<MeshPoint<PolyPoint<P>>> {
    meshed(rounded_polyline(points, corners, elements_per_segment), elements_per_segment)
}

/// The ordered points of the finite-strip model of a sharp-corner polyline.
///
/// `points` are the centerline points *with* sharp corners; `corners[j]` says
/// how the interior vertex `points[j + 1]` is rounded. The polyline is open:
/// its endpoints stay sharp. Each entry of the result is either a supplied
/// point, a point on the arc of a rounded corner, or an interpolation point of
/// a straight run; node `i + 1` of the model sits at entry `i`.
pub fn section_plan<P: Copy>(
    points: &[P],
    corners: &[Corner<P>],
    elements_per_segment: usize,
) -> (plan: Vec<MeshPoint<PolyPoint<P>>>)
    requires
        points@.len() >= 2,
        corners@.len() + 2 == points@.len(),
        elements_per_segment > 0,
    ensures
        plan@ == planned(points@, corners@, elements_per_segment),
        laws::follows_section(plan@, points@, corners@, elements_per_segment),
{
    let polyline = round_polyline(points, corners, elements_per_segment);
    proof {
        laws::lemma_rounded_starts_with_first(points@, corners@, elements_per_segment);
    }
    let plan = mesh(polyline.as_slice(), elements_per_segment);
    proof {
        laws::lemma_plan_follows_section(points@, corners@, elements_per_segment);
    }
    plan
}

/// Pack a list of polyline points into CUFSM `node` / `elem` rows.
///
/// Node `i + 1` sits at `points[i]` with all degrees of freedom free and the
/// initial `stress`; element `i + 1` joins nodes `i + 1` and `i + 2`, with
/// the given `thickness` and the default material.
pub fn to_cufsm_model<T: Copy>(points: &[Vec2<T>], thickness: T, stress: T) -> (m:
    FiniteStripModel<T>)
    ensures
        m.nodes@.len() == points@.len(),
        forall|i: int|
            0 <= i < points@.len() ==> #[trigger] m.nodes@[i] == node_row_at(
                i,
                points@[i],
                stress,
            ),
        m.elements@.len() == chain_element_count(points@.len() as nat),
        forall|i: int|
            0 <= i < m.elements@.len() ==> #[trigger] m.elements@[i] == element_row_at(
                i,
                thickness,
            ),
        is_open_chain(m),
        m.elements@.len() == if points@.len() == 0 {
            0
        } else {
            points@.len() - 1
        },
        forall|i: int|
            0 <= i < points@.len() ==> {
                &&& #[trigger] m.nodes@[i].id == i + 1
                &&& m.nodes@[i].x == points@[i].x
                &&& m.nodes@[i].y == points@[i].y
                &&& m.nodes@[i].xdof == 1
                &&& m.nodes@[i].ydof == 1
                &&& m.nodes@[i].zdof == 1
                &&& m.nodes@[i].qdof == 1
                &&& m.nodes@[i].stress == stress
            },
        forall|i: int|
            0 <= i < m.elements@.len() ==> {
                &&& #[trigger] m.elements@[i].id == i + 1
                &&& m.elements@[i].node_i == i + 1
                &&& m.elements@[i].node_j == i + 2
                &&& m.elements@[i].thickness == thickness
                &&& m.elements@[i].material == 100
            },
{
    let n = points.len();
    let mut nodes: Vec<NodeRow<T>> = Vec::new();
    for i in 0..n
        invariant
            n == points@.len(),
            nodes@.len() == i,
            forall|j: int| 0 <= j < i ==> #[trigger] nodes@[j] == node_row_at(j, points@[j], stress),
    {
        let p = points[i];
        nodes.push(
            NodeRow {
                id: i + 1,
                x: p.x,
                y: p.y,
                xdof: 1,
                ydof: 1,
                zdof: 1,
                qdof: 1,
                stress: stress,
            },
        );
    }
    let n_elements: usize = if n == 0 { 0 } else { n - 1 };
    let mut elements: Vec<ElementRow<T>> = Vec::new();
    for i in 0..n_elements
        invariant
            n_elements == chain_element_count(n as nat),
            n == points@.len(),
            elements@.len() == i,
            forall|j: int| 0 <= j < i ==> #[trigger] elements@[j] == element_row_at(j, thickness),
    {
        elements.push(
            ElementRow {
                id: i + 1,
                node_i: i + 1,
                node_j: i + 2,
                thickness: thickness,
                material: DEFAULT_MATERIAL,
            },
        );
    }
    let m = FiniteStripModel { nodes, elements };
    assert forall|i: int| 0 <= i < m.elements@.len() implies {
        &&& #[trigger] m.elements@[i].id == i + 1
        &&& m.elements@[i].node_i == m.nodes@[i].id
        &&& m.elements@[i].node_j == m.nodes@[i + 1].id
    } by {
        assert(m.nodes@[i] == node_row_at(i, points@[i], stress));
        assert(m.nodes@[i + 1] == node_row_at(i + 1, points@[i + 1], stress));
    }
    assert forall|i: int| 0 <= i < m.nodes@.len() implies #[trigger] m.nodes@[i].id == i + 1 by {
        assert(m.nodes@[i] == node_row_at(i, points@[i], stress));
    }
    m
}

} // verus!
