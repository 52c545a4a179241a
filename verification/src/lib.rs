//! Building finite-strip section models from sharp-corner polylines.
//!
//! The library holds the combinatorial half of the section builder: which
//! vertices a rounded polyline consists of, how straight runs are subdivided,
//! and how the resulting points become CUFSM node and element rows. Point and
//! scalar types are generic: the library carries them through unchanged, and
//! the numeric evaluation of arc and interpolation points is left to the
//! caller.

pub mod cufsm;
pub mod geometry;

pub use cufsm::{ElementRow, FiniteStripModel, NodeRow};
pub use geometry::{Vec2, section_plan, to_cufsm_model};
