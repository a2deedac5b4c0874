//! Core of a storage-capacity probe: converts a size given as decimal text
//! plus a unit tag into an exact byte count, and plans the creation of a
//! sparse file of exactly that apparent size.
//!
//! The filesystem itself is outside the verified boundary: this crate
//! produces the sequence of file operations to perform and proves, against a
//! model of sparse-file semantics, that carrying them out yields a file of
//! exactly the requested length. A thin front end executes the plan.

pub mod creator;
pub mod decimal;
pub mod model;
pub mod plan;
pub mod units;
