//! Discovers build-artifact directories across a filesystem tree, estimates
//! the disk space each consumes, reduces the candidate list to a deletion
//! set, and accounts for the space freed by concurrent cleanup runs.
//!
//! The pipeline runs strictly forward: detection and size estimation feed
//! the preview builder, the preview feeds the selection engine, and the
//! selection feeds the cleanup executor. Directory contents enter through a
//! single snapshot boundary (`fs_read`); everything downstream of that
//! boundary is verified against the snapshot it was handed.

use vstd::prelude::*;

pub mod cmd;
pub mod detect;
pub mod estimate;
pub mod execute;
pub mod format;
pub mod fs_data;
pub mod fs_read;
pub mod preview;
pub mod select;

verus! {

/// Limits on how much of a directory tree one size estimation may examine:
/// a maximum traversal depth and a maximum total number of files counted
/// across the whole estimate.
pub struct ScanBounds {
    pub max_depth: usize,
    pub max_files: usize,
}

impl ScanBounds {
    pub fn new(max_depth: usize, max_files: usize) -> (r: ScanBounds)
        ensures
            r.max_depth == max_depth,
            r.max_files == max_files,
    {
        ScanBounds { max_depth, max_files }
    }
}

} // verus!
