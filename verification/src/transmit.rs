//! The decisions of sending a request and reading its response: the bytes
//! sent after the opcode, and whether a polled response is ready.

use vstd::prelude::*;

verus! {

/// Puts a byte that a request's provider gives after the `size` bytes
/// already in the request, and returns the new number of bytes to send. The
/// other bytes are left as they were.
pub fn put_provided(data: &mut [u8], size: usize, byte: u8) -> (r: usize)
    requires
        size < old(data)@.len(),
    ensures
        r == size + 1,
        final(data)@ == old(data)@.update(size as int, byte),
{
    data[size] = byte;
    size + 1
}

/// What a polled transmission does after it has read a header.
#[derive(Debug, Clone, Copy, PartialEq, Eq)]
pub enum PollAction {
    /// Read the rest of the response after the header.
    ReadRest,
    /// Read the header again.
    ReadHeaderAgain,
}

/// The next step of a polled transmission: once the header's condition
/// holds, the rest of the response is read; until then the header is read
/// again.
pub fn after_header(condition_met: bool) -> (r: PollAction)
    ensures
        r == (if condition_met {
            PollAction::ReadRest
        } else {
            PollAction::ReadHeaderAgain
        }),
{
    if condition_met {
        PollAction::ReadRest
    } else {
        PollAction::ReadHeaderAgain
    }
}

} // verus!
