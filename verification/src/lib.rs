//! Determine which members of a multi-package workspace are impacted by a set
//! of changed file paths, for gating CI work to only the affected packages.
//!
//! The computation is a pure function of its inputs: a dependency graph over
//! the workspace packages, the list of changed file paths, a list of
//! force-trigger glob patterns, and a list of exclusion rules. Changed files
//! are mapped to the packages whose directories contain them, the reverse
//! dependency closure of those packages is taken over the graph (or the whole
//! workspace under a force trigger), and exclusion rules hide packages from
//! the output lists without ever pruning the traversal itself.

use vstd::prelude::*;

pub mod affected;
pub mod exclude;
pub mod graph;
pub mod laws;
pub mod names;
pub mod paths;
pub mod strings;
pub mod triggers;

pub use crate::affected::compute_affected;
pub use crate::exclude::is_excluded;
pub use crate::triggers::check_force_triggers;
pub use crate::triggers::TriggerPatternError;

verus! {

/// The outcome of one affected-set computation: whether a force trigger fired,
/// the names of the directly changed workspace packages, the names of all
/// affected workspace packages, and the subset of those with a binary target.
/// All three lists are sorted ascending and free of duplicates.
#[derive(Debug, Clone, PartialEq, Eq)]
pub struct AffectedResult {
    pub force_all: bool,
    pub changed_crates: Vec<String>,
    pub affected_library_members: Vec<String>,
    pub affected_binary_members: Vec<String>,
}

} // verus!
