//! Conventional-commit message handling: building, parsing and cleaning
//! commit messages, the decisions of the interactive review screen, and the
//! commands and prompts that the command-line tool hands to git and to the
//! language model.
pub mod ai;
pub mod cli;
pub mod commit;
pub mod git;
pub mod text;
pub mod ui;

use vstd::prelude::*;

verus! {

} // verus!
