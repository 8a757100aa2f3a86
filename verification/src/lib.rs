//! A grading engine: turns unit-test outcomes and line-coverage counts into a
//! normalized, deterministic score report.

pub mod coverage;
pub mod engine;
pub mod error;
pub mod order;
pub mod render;
pub mod outcome;
pub mod rat;
pub mod report;
pub mod score_map;
