//! The parsed command-line configuration, built once at process start and
//! passed by reference into the resolving, sorting and grouping steps.
use vstd::prelude::*;

verus! {

/// The listing configuration: the target location and the sort and
/// grouping flags.
pub struct Cli {
    /// Target location: an existing path to list, or a name filter.
    pub dir: String,
    /// Sort files by name.
    pub name: bool,
    /// Sort files by the date created.
    pub created: bool,
    /// Sort files by the date modified.
    pub modified: bool,
    /// Sort files by file size.
    pub size: bool,
    /// Group directories before files.
    pub gdf: bool,
}

} // verus!
