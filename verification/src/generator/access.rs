//! Which way a field of a register may be used.

use vstd::prelude::*;

verus! {

/// Which way a field may be used: read, written, or both.
#[derive(Debug, Clone, Copy, PartialEq, Eq)]
pub enum Access {
    Read,
    Write,
    ReadWrite,
}

impl Default for Access {
    /// A field may be both read and written unless a definition says
    /// otherwise.
    fn default() -> (r: Self)
        ensures
            r == Access::ReadWrite,
    {
        Access::ReadWrite
    }
}

} // verus!
