//! SPI device drivers from definitions: the `bit-lang` notation for where
//! the bits of a field lie, its parser and printer; the bit and word
//! (de)serialization primitives that generated drivers use; and the parts of
//! the driver generator that compute the generated code.

pub mod bit_spec;
pub mod text;
pub mod parser;
pub mod round_trip;
pub mod well_formed;
pub mod bits;
pub mod serialize;
pub mod request;
pub mod response;
pub mod word_laws;
pub mod lines;
pub mod generator;
pub mod xtask;
pub mod transmit;

pub use bit_spec::{BitRange, BitSpec, Repeat, Word};
pub use parser::{parse, Error};
pub use serialize::DeviceError;
