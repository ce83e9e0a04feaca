//! Implicit surfaces and their combinations.

pub mod csg;
