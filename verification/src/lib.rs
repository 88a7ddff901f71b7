//! A reader for optimization problems written in the Standard Input Format
//! (SIF), a line-oriented text format close to MPS.
//!
//! A document is a name header and a sequence of sections. Each section is
//! opened by an indicator, a line of one or more words of capital letters,
//! and holds data lines that start with a blank or a tab. [`parse_sif`]
//! reads a whole document and gives the problem it describes, or the first
//! error it meets.

use vstd::prelude::*;

pub mod document;
pub mod error;
pub mod laws;
pub mod model;
pub mod number;
pub mod order;
pub mod parser;
pub mod pattern;
pub mod records;
pub mod row;
pub mod sections;
pub mod table;
pub mod text;
pub mod types;
pub mod validate;

use crate::error::{Failure, ParseError};
use crate::model::{Problem, SIF};
pub use crate::parser::parse_outcome;
use crate::parser::SifParser;

verus! {

/// Reads a document.
///
/// Returns the problem that `input` describes. Every name that the problem
/// uses is the name of a row or column that it holds. Any error ends the
/// reading: there is no partial problem.
pub fn parse_sif(input: &str) -> (r: Result<SIF, ParseError>)
    ensures
        match r {
            Ok(p) => parse_outcome(input@) == Ok::<Problem, Failure>(p@) && p@.resolved(),
            Err(e) => parse_outcome(input@) == Err::<Problem, Failure>(e@),
        },
{
    SifParser::parse(input)
}

} // verus!
