//! The traits that requests and responses of a device implement, and the
//! errors of a device driver.

use vstd::prelude::*;

verus! {

/// A structure that can be written to the bytes of a request.
pub trait Serialize {
    /// The iterator that provides the bytes that follow the fixed part.
    type Provider: Iterator<Item = u8>;

    /// Returns the number of bytes that are valid, an array holding them
    /// (the array can be longer than that number) and an iterator that
    /// provides any further bytes.
    fn serialize<const LEN: usize>(&self) -> (usize, [u8; LEN], Self::Provider);
}

/// A structure with a variable number of elements that no other member
/// bounds.
pub trait SerializeVariable {
    /// The iterator that provides the variable part.
    type Provider: Iterator<Item = u8>;

    /// Returns the number of bytes of the fixed members and of the repeating
    /// members whose count is fixed or given by another member, an array
    /// holding them (the array can be longer than that number) and, if there
    /// is one, an iterator over the rest of the data.
    fn serialize<const LEN: usize>(&self) -> (usize, [u8; LEN], Option<Self::Provider>);
}

/// A structure that can be read from the bytes of a response.
pub trait Deserialize<T> {
    /// Reads the structure from the start of `buf`.
    fn deserialize(buf: &[u8]) -> Result<T, DeviceError>;
}

/// A request that a device identifies by an opcode.
pub trait Command {
    /// The opcode sent before the request's data.
    fn opcode(&self) -> u8;
}

/// The errors of a device driver.
#[derive(Copy, Clone, Debug)]
pub enum DeviceError {
    EnumConversion,
    BitPositionOutOfRange,
    CsAssert,
    Transmit,
    Receive,
}

} // verus!
