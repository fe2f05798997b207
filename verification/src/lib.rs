//! Finds inline TODO markers in source text, attributes each to the commit
//! that introduced it via parsed history-attribution output, and renders a
//! sorted, age-labelled report with summary statistics.

pub mod color;
pub mod git;
pub mod pipeline;
pub mod scan;
pub mod stats;
pub mod text;
pub mod todo;

use vstd::prelude::*;

verus! {

} // verus!
