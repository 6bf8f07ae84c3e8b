//! Errors of the workspace tasks that add generated crates to a workspace.

use vstd::prelude::*;
use vstd::string::*;

verus! {

/// Errors of the workspace tasks.
#[derive(Debug, Clone, PartialEq)]
pub enum XtaskErrors {
    /// The manifest at this path has no workspace section.
    WorkspaceNotFound(String),
}

impl XtaskErrors {
    /// The error's message.
    pub fn message(&self) -> (r: String)
        ensures
            r@ == match self {
                XtaskErrors::WorkspaceNotFound(path) => "No workspace path found in "@ + path@,
            },
    {
        match self {
            XtaskErrors::WorkspaceNotFound(path) => {
                let s = String::from_str("No workspace path found in ");
                s.concat(path.as_str())
            },
        }
    }
}

} // verus!
