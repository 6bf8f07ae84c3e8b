//! How a command's response is read after its request is sent.

use vstd::prelude::*;

verus! {

/// Flow control patterns.
#[derive(Debug, Clone, PartialEq)]
pub enum FlowControl {
    /// Request data is sent to the peripheral and then the response data is
    /// read directly afterwards.
    Direct,
    /// After the request data is sent, a small and fixed amount of data (a
    /// header) is read and inspected. If a condition is met (e.g. a bit is
    /// set) then the rest of the data is read; if not, the header is read
    /// again until it is.
    Polled { on: String, condition: String },
}

impl Default for FlowControl {
    /// Responses are read directly unless a definition says otherwise.
    fn default() -> (r: Self)
        ensures
            r == FlowControl::Direct,
    {
        FlowControl::Direct
    }
}

} // verus!
