//! A canonicalizing pretty-printer for plain-text accounting ledger files.
//!
//! The library consumes a concrete syntax tree of a ledger document — kinds,
//! texts, positions and child relationships of its nodes — and re-emits the
//! document with normalized indentation, spacing and column alignment, or
//! reports the position of the first syntax error.
pub mod chars;
pub mod errors;
pub mod format;
pub mod layout;
pub mod node;
pub mod props;
pub mod render;

use crate::chars::chars_to_string;
use crate::errors::FmtError;
use crate::format::format_document;
use crate::layout::State;
use crate::node::{find_first_error, SyntaxTree};
use crate::render::spec_beautify;
use vstd::prelude::*;

verus! {

/// Format a whole parsed document.  If the tree's error flag is set, abort
/// with the 1-based line of the first error node (or the inconsistency
/// report when none is found) and emit nothing.  Otherwise return the
/// formatted text: the root's children in order, blank lines collapsed, and
/// a final line break added if the last line was left unterminated.
pub fn beautify(tree: &SyntaxTree) -> (r: Result<String, FmtError>)
    ensures
        match spec_beautify(*tree) {
            Ok(t) => r matches Ok(s) && s@ == t,
            Err(e) => r matches Err(e2) && e2 == e,
        },
{
    if tree.has_error {
        return match find_first_error(&tree.root) {
            Some((row, _c)) => Err(FmtError::SyntaxError { line: row as u128 + 1 }),
            None => Err(FmtError::InconsistentTree),
        };
    }
    let mut state = State::new();
    match format_document(&mut state, &tree.root) {
        Err(e) => Err(e),
        Ok(()) => {
            if state.col != 0 {
                state.println("");
            }
            proof {
                reveal_strlit("");
                assert(state.out@ =~= spec_beautify(*tree)->Ok_0);
            }
            Ok(chars_to_string(&state.out))
        },
    }
}

} // verus!
