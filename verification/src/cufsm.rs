//! CUFSM finite-strip model row types.
//!
//! These mirror the `node` and `elem` matrices of CUFSM and define the
//! file-format contract independently of how the geometry was generated.
//! The coordinate, stress and thickness columns have the scalar type `T`.
use vstd::prelude::*;

use crate::geometry::Vec2;

verus! {

/// One row of the CUFSM `node` matrix:
/// `[id, x, y, xdof, ydof, zdof, qdof, stress]`.
#[derive(Debug, Clone, Copy)]
pub struct NodeRow<T> {
    pub id: usize,
    pub x: T,
    pub y: T,
    pub xdof: u8,
    pub ydof: u8,
    pub zdof: u8,
    pub qdof: u8,
    pub stress: T,
}

/// One row of the CUFSM `elem` matrix:
/// `[id, node_i, node_j, thickness, material]`.
#[derive(Debug, Clone, Copy)]
pub struct ElementRow<T> {
    pub id: usize,
    pub node_i: usize,
    pub node_j: usize,
    pub thickness: T,
    pub material: u32,
}

/// CUFSM finite-strip model: a node table and an element table.
#[derive(Debug, Clone)]
pub struct FiniteStripModel<T> {
    pub nodes: Vec<NodeRow<T>>,
    pub elements: Vec<ElementRow<T>>,
}

/// Default material id of every element (`100`).
pub const DEFAULT_MATERIAL: u32 = 100;

/// The node row written for the point `p` at (0-based) position `i`: its id is
/// `i + 1`, all four degrees of freedom are free (`1`).
pub open spec fn node_row_at<T>(i: int, p: Vec2<T>, stress: T) -> NodeRow<T> {
    NodeRow {
        id: (i + 1) as usize,
        x: p.x,
        y: p.y,
        xdof: 1,
        ydof: 1,
        zdof: 1,
        qdof: 1,
        stress: stress,
    }
}

/// The element row at (0-based) position `i`: element `i + 1` joins node
/// `i + 1` to node `i + 2`.
pub open spec fn element_row_at<T>(i: int, thickness: T) -> ElementRow<T> {
    ElementRow {
        id: (i + 1) as usize,
        node_i: (i + 1) as usize,
        node_j: (i + 2) as usize,
        thickness: thickness,
        material: DEFAULT_MATERIAL,
    }
}

/// The number of elements of a chain of `n` nodes: `n - 1`, and none for an
/// empty chain.
pub open spec fn chain_element_count(n: nat) -> nat {
    if n == 0 { 0 } else { (n - 1) as nat }
}

/// A model is an open chain: node `k` (1-based) has id `k`, there is one
/// element fewer than nodes, and element `k` joins the nodes with ids `k` and
/// `k + 1`, so each element references two existing, consecutive nodes.
pub open spec fn is_open_chain<T>(m: FiniteStripModel<T>) -> bool {
    &&& m.elements@.len() == chain_element_count(m.nodes@.len())
    &&& forall|i: int| 0 <= i < m.nodes@.len() ==> #[trigger] m.nodes@[i].id == i + 1
    &&& forall|i: int|
        0 <= i < m.elements@.len() ==> {
            &&& #[trigger] m.elements@[i].id == i + 1
            &&& m.elements@[i].node_i == m.nodes@[i].id
            &&& m.elements@[i].node_j == m.nodes@[i + 1].id
        }
}

} // verus!
