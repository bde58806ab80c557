//! The error surface of the formatter: every way a run can fail, and the
//! single-line diagnostic for each.
use crate::chars::{chars_to_string, push_decimal, push_str_chars, spec_digits};
use vstd::prelude::*;

verus! {

/// Why a formatting run aborted.  There is no local recovery: every variant
/// ends the whole run.
#[derive(Clone, Copy, Debug, PartialEq, Eq, Structural)]
pub enum FmtError {
    /// The provider could not produce a syntax tree at all.
    ParseFailure,
    /// The tree contains a grammar error node; `line` is the 1-based source
    /// line of the first one in depth-first order.
    SyntaxError { line: u128 },
    /// The tree's error flag is set but no error node was found by the
    /// depth-first search: the provider's flag is unreliable for this tree.
    InconsistentTree,
    /// A formatter expected a specific child of a node and it was absent;
    /// `row` and `col` are the 0-based start position of the node where the
    /// expectation failed.
    MissingChild { row: usize, col: usize },
}

/// The single-line diagnostic for `e`.
pub open spec fn spec_message(e: FmtError) -> Seq<char> {
    match e {
        FmtError::ParseFailure => "Could not parse file."@,
        FmtError::SyntaxError { line } => "Parsed file contains errors (at line "@ + spec_digits(
            line as nat,
        ) + ")."@,
        FmtError::InconsistentTree => "An error occurred, but no ERROR node was found."@,
        FmtError::MissingChild { row, col } => "Error accessing token around line "@ + spec_digits(
            row as nat,
        ) + " col "@ + spec_digits(col as nat),
    }
}

impl FmtError {
    /// The single-line human-readable diagnostic for this error.
    pub fn message(&self) -> (r: String)
        ensures
            r@ == spec_message(*self),
    {
        let mut v: Vec<char> = Vec::new();
        match self {
            FmtError::ParseFailure => {
                push_str_chars(&mut v, "Could not parse file.");
            },
            FmtError::SyntaxError { line } => {
                push_str_chars(&mut v, "Parsed file contains errors (at line ");
                push_decimal(&mut v, *line);
                push_str_chars(&mut v, ").");
            },
            FmtError::InconsistentTree => {
                push_str_chars(&mut v, "An error occurred, but no ERROR node was found.");
            },
            FmtError::MissingChild { row, col } => {
                push_str_chars(&mut v, "Error accessing token around line ");
                push_decimal(&mut v, *row as u128);
                push_str_chars(&mut v, " col ");
                push_decimal(&mut v, *col as u128);
            },
        }
        proof {
            assert(v@ =~= spec_message(*self));
        }
        chars_to_string(&v)
    }
}

} // verus!
