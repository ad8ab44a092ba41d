//! Exact ray casting against the collision boxes of a sparse voxel grid.
//!
//! A coarse grid stepper proposes candidate cells along a ray, nearest first.
//! For each candidate this crate decides what happens next: ask the world for
//! the block in the cell, cast the ray against each of its collision boxes,
//! choose the impact to report, hand the report to the visitor, and go on or
//! stop as the visitor says. The arithmetic on coordinates is done by the
//! caller; every number that passes through here is an IEEE 754 binary64
//! value held as its 64-bit pattern.
pub mod hit;
pub mod laws;
pub mod traversal;
pub mod vector;

pub use hit::{Hit, Impact};
pub use traversal::{stepper_answer, Action, Event, Traversal};
pub use vector::{direction_usable, Cell, Vec3};
