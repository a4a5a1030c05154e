//! The parser interface: a `CourseDBParser` turns source text into a
//! `CourseDB`.

use vstd::prelude::*;

use crate::models::{CourseDB, CourseDBView};

pub mod htmlparser;
pub mod xml_parser;

verus! {

/// A parser from source text to a course database.
pub trait CourseDBParser {
    /// The database this parser reconstructs from `input` when it succeeds.
    spec fn parsed_db(&self, input: Seq<char>) -> Option<CourseDBView>;

    /// Parses `input` into a course database.
    fn parse(&self, input: &str) -> (r: Result<CourseDB, CourseDBParseError>)
        ensures
            r is Ok <==> self.parsed_db(input@) is Some,
            r matches Ok(db) ==> Some(db@) == self.parsed_db(input@),
    ;
}

/// Error from a `CourseDBParser`.
#[derive(Debug)]
pub enum CourseDBParseError {
    /// The input cannot yield a database at all. The HTML parser is
    /// lenient and never reports this.
    Unparseable,
}

} // verus!
