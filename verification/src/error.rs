//! The engine's failure taxonomy.
//!
//! Every failure is fatal: the engine either produces a complete report or
//! one of these values, never a partial report. Each variant carries a kind
//! and a short message; collaborators that wrap this library attach their own
//! underlying causes.

use vstd::prelude::*;

verus! {

#[derive(Debug)]
pub enum MyError {
    /// The scoring configuration could not be understood.
    ConfigParse { msg: String },
    /// The observed instructor-test names differ from the configured ones,
    /// or the report's combined maximum score is zero.
    Validation { msg: String },
    /// The coverage input could not be read as coverage records.
    CoverageRead { msg: String },
    /// A constructed value cannot be encoded to the output schema.
    Serialization { msg: String },
    /// A read, write or create delegated to a collaborator failed.
    Io { msg: String },
    /// An exact score component would not fit a machine word.
    ScoreOverflow { msg: String },
}

impl MyError {
    pub open spec fn spec_msg(self) -> Seq<char> {
        match self {
            MyError::ConfigParse { msg } => msg@,
            MyError::Validation { msg } => msg@,
            MyError::CoverageRead { msg } => msg@,
            MyError::Serialization { msg } => msg@,
            MyError::Io { msg } => msg@,
            MyError::ScoreOverflow { msg } => msg@,
        }
    }

    pub fn message(&self) -> (r: &String)
        ensures
            r@ == self.spec_msg(),
    {
        match self {
            MyError::ConfigParse { msg } => msg,
            MyError::Validation { msg } => msg,
            MyError::CoverageRead { msg } => msg,
            MyError::Serialization { msg } => msg,
            MyError::Io { msg } => msg,
            MyError::ScoreOverflow { msg } => msg,
        }
    }
}

} // verus!
