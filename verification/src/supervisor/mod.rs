//! Running a house: supervision of its units, the caches the core serves,
//! and applying a plan.

pub mod apply;
pub mod backoff;
pub mod process;
pub mod serve;
pub mod unit;
