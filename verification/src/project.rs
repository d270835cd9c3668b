//! The directory layout of one project workspace, as plain path text.
//! Creating, opening and packaging workspaces is filesystem work outside
//! this crate.

use vstd::prelude::*;

verus! {

/// Where a project keeps its pieces: the root, the manifest file, the
/// internal state directory and the conversation logs.
pub struct ProjectPaths {
    pub root: String,
    pub pat_file: String,
    pub internal: String,
    pub conversations: String,
}

impl ProjectPaths {
    /// Bundles the four paths of a workspace.
    pub fn new(root: String, pat_file: String, internal: String, conversations: String) -> (r:
        ProjectPaths)
        ensures
            r.root == root,
            r.pat_file == pat_file,
            r.internal == internal,
            r.conversations == conversations,
    {
        ProjectPaths { root, pat_file, internal, conversations }
    }
}

} // verus!
