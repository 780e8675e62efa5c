//! Operations on a repository: reading, searching, patching and editing its files.

pub mod arguments;
pub mod batch;
pub mod batch_laws;
pub mod diagnostics;
pub mod edit;
pub mod edit_laws;
pub mod git;
pub mod glob;
pub mod guards;
pub mod hunks;
pub mod hunk_laws;
pub mod limits;
pub mod names;
pub mod patch;
pub mod patch_laws;
pub mod path_laws;
pub mod plan;
pub mod range_laws;
pub mod search;
pub mod search_laws;
pub mod view_laws;
pub mod walk;
