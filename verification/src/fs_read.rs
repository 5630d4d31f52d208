//! The one place where the library touches the disk: a snapshot of a
//! directory tree taken through the `walkdir` crate. Everything the
//! pipeline computes is a function of the snapshots handed back here.

use vstd::prelude::*;
use crate::fs_data::RawEntry;

verus! {

/// Relies on walkdir's `WalkDir`: yields every entry under `path` in
/// depth-first order, parents before children, each with its depth
/// relative to `path` (the root itself at depth 0, its children at 1).
/// `max_depth(d)` keeps the walk from descending past depth `d`. Entries
/// that cannot be read (permissions, races with deletion, a missing root)
/// are skipped. Each entry carries whether its metadata reports a
/// directory or a regular file; an entry that is neither (a symbolic
/// link, a fifo, a socket) reports both bits false, and what the model
/// counts is decided downstream in verified code. Nothing is promised of
/// the result: what comes back depends on the state of the disk at the
/// moment of the call.
#[verifier::external_body]
pub(crate) fn walk_tree(path: &String, depth_cap: Option<usize>) -> Vec<RawEntry> {
    let walker = walkdir::WalkDir::new(path);
    let walker = match depth_cap {
        Some(d) => walker.max_depth(d),
        None => walker,
    };
    let mut out: Vec<RawEntry> = Vec::new();
    for e in walker.into_iter().flatten() {
        let name = e.file_name().to_string_lossy().into_owned();
        let p = e.path().to_string_lossy().into_owned();
        if let Ok(md) = e.metadata() {
            let (is_dir, is_file, size) = (md.is_dir(), md.is_file(), md.len());
            out.push(RawEntry { path: p, name, depth: e.depth(), is_dir, is_file, size });
        }
    }
    out
}

} // verus!
