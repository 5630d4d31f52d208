//! The cleaning tools the pipeline knows how to run: each carries the tool
//! name and the marker filenames whose presence identifies a project of
//! that kind.

use vstd::prelude::*;

verus! {

/// A cleaning tool: the binary's name together with the marker filenames
/// that signal a directory is a project this tool can clean. Immutable
/// once constructed; the catalog of these is built once per run.
pub struct Cmd {
    pub name: String,
    pub related_files: Vec<String>,
}

impl Cmd {
    pub fn new(cmd_str: String, related_files: Vec<String>) -> (r: Cmd)
        ensures
            r.name@ == cmd_str@,
            r.related_files == related_files,
    {
        Cmd { name: cmd_str, related_files }
    }

    /// Whether this tool's clean step is the built-in directory-removal
    /// routine rather than an invocation of the external binary.
    pub fn is_special_clean_command(&self) -> (r: bool)
        ensures
            r == (self.name@ == "nodejs"@),
    {
        let special: String = "nodejs".to_owned();
        self.name == special
    }
}

} // verus!
