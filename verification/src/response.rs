//! Reading the fields of a response from its bytes. Words wider than a byte
//! are read little endian.

use vstd::prelude::*;

use crate::bits::{bit_of, spec_field, Bits};

verus! {

/// The `u16` whose bytes, least significant first, are `b0` and `b1`.
pub open spec fn le_u16(b0: u8, b1: u8) -> u16 {
    (b0 + 256 * b1) as u16
}

/// The `u32` whose bytes, least significant first, are `b0` to `b3`.
pub open spec fn le_u32(b0: u8, b1: u8, b2: u8, b3: u8) -> u32 {
    (b0 + 256 * b1 + 65536 * b2 + 16777216 * b3) as u32
}

/// Reading a single bit of a word.
pub trait ResponseBit {
    /// Gets the bit at `position`.
    fn deserialize_bit(&self, position: usize) -> bool
        requires
            position < 8,
    ;
}

impl ResponseBit for u8 {
    /// Get a bit as bool at a particular position.
    fn deserialize_bit(&self, position: usize) -> (r: bool)
        ensures
            r == bit_of(*self, position as u8),
    {
        self.bit(position)
    }
}

/// Reading a field of bits of a word.
pub trait ResponseField {
    /// Gets the bits `start..=end` as a number.
    fn deserialize_field(&self, start: usize, end: usize) -> u8
        requires
            start < 8,
            start <= end ==> end < 8,
    ;
}

impl ResponseField for u8 {
    fn deserialize_field(&self, start: usize, end: usize) -> (r: u8)
        ensures
            r == spec_field(*self, start as u8, end as u8),
    {
        self.field(start, end)
    }
}

/// Reading a whole word (of one or more bytes).
pub trait ResponseWord<T> {
    /// Whether the source holds the bytes that are read.
    spec fn holds_word(&self) -> bool;

    /// The word that the bytes hold.
    spec fn word_value(&self) -> T;

    /// Reads the word.
    fn deserialize_word(&self) -> (r: T)
        requires
            self.holds_word(),
        ensures
            r == self.word_value(),
    ;
}

impl ResponseWord<u8> for u8 {
    open spec fn holds_word(&self) -> bool {
        true
    }

    open spec fn word_value(&self) -> u8 {
        *self
    }

    fn deserialize_word(&self) -> u8 {
        *self
    }
}

impl ResponseWord<i8> for u8 {
    open spec fn holds_word(&self) -> bool {
        true
    }

    open spec fn word_value(&self) -> i8 {
        *self as i8
    }

    fn deserialize_word(&self) -> i8 {
        *self as i8
    }
}

/// The `u16` in the first two bytes of `s`.
fn read_u16(s: &[u8]) -> (r: u16)
    requires
        s@.len() >= 2,
    ensures
        r == le_u16(s@[0], s@[1]),
{
    (s[0] as u16) + 256 * (s[1] as u16)
}

/// The `u32` in the first four bytes of `s`.
fn read_u32(s: &[u8]) -> (r: u32)
    requires
        s@.len() >= 4,
    ensures
        r == le_u32(s@[0], s@[1], s@[2], s@[3]),
{
    (s[0] as u32) + 256 * (s[1] as u32) + 65536 * (s[2] as u32) + 16777216 * (s[3] as u32)
}

impl ResponseWord<u16> for [u8] {
    open spec fn holds_word(&self) -> bool {
        self@.len() >= 2
    }

    open spec fn word_value(&self) -> u16 {
        le_u16(self@[0], self@[1])
    }

    fn deserialize_word(&self) -> u16 {
        read_u16(self)
    }
}

impl ResponseWord<i16> for [u8] {
    open spec fn holds_word(&self) -> bool {
        self@.len() >= 2
    }

    open spec fn word_value(&self) -> i16 {
        le_u16(self@[0], self@[1]) as i16
    }

    fn deserialize_word(&self) -> i16 {
        read_u16(self) as i16
    }
}

impl ResponseWord<u32> for [u8] {
    open spec fn holds_word(&self) -> bool {
        self@.len() >= 4
    }

    open spec fn word_value(&self) -> u32 {
        le_u32(self@[0], self@[1], self@[2], self@[3])
    }

    fn deserialize_word(&self) -> u32 {
        read_u32(self)
    }
}

impl ResponseWord<i32> for [u8] {
    open spec fn holds_word(&self) -> bool {
        self@.len() >= 4
    }

    open spec fn word_value(&self) -> i32 {
        le_u32(self@[0], self@[1], self@[2], self@[3]) as i32
    }

    fn deserialize_word(&self) -> i32 {
        read_u32(self) as i32
    }
}

/// The smaller of two numbers.
pub open spec fn min(a: int, b: int) -> int {
    if a <= b {
        a
    } else {
        b
    }
}

/// The number of chunks of `width` bytes (the last one possibly shorter)
/// that `len` bytes make.
pub open spec fn chunk_count(len: int, width: int) -> int {
    (len + width - 1) / width
}

/// The words read into an array of `n` elements: the first `count` given by
/// `word`, the rest zero.
pub open spec fn filled<A>(n: int, count: int, word: spec_fn(int) -> A, zero: A) -> Seq<A> {
    Seq::new(
        n as nat,
        |i: int|
            if i < count {
                word(i)
            } else {
                zero
            },
    )
}

/// Reading repeated words into an array.
pub trait ResponseArray<T: View> {
    /// Whether the words read fit the array and no word is cut short.
    spec fn holds_repeating_words(&self, number: usize) -> bool;

    /// The array the bytes hold, as a sequence.
    spec fn repeating_words(&self, number: usize) -> T::V;

    /// Reads up to `number` words (no more than the bytes hold) into an
    /// array whose other elements are zero.
    fn deserialize_repeating_words(&self, number: usize) -> (r: T)
        requires
            self.holds_repeating_words(number),
        ensures
            r@ == self.repeating_words(number),
    ;
}

impl<const TARGET_LEN: usize> ResponseArray<[u8; TARGET_LEN]> for [u8] {
    open spec fn holds_repeating_words(&self, number: usize) -> bool {
        min(number as int, self@.len() as int) <= TARGET_LEN
    }

    open spec fn repeating_words(&self, number: usize) -> Seq<u8> {
        filled(
            TARGET_LEN as int,
            min(number as int, self@.len() as int),
            |i: int| self@[i],
            0u8,
        )
    }

    fn deserialize_repeating_words(&self, number: usize) -> [u8; TARGET_LEN] {
        let mut target = [0u8; TARGET_LEN];
        let len = self.len();
        let count = if number < len {
            number
        } else {
            len
        };
        let mut i: usize = 0;
        while i < count
            invariant
                count == min(number as int, self@.len() as int),
                count <= TARGET_LEN,
                len == self@.len(),
                0 <= i <= count,
                target@ == filled(TARGET_LEN as int, i as int, |k: int| self@[k], 0u8),
            decreases count - i,
        {
            target[i] = self[i];
            i = i + 1;
            assert(target@ =~= filled(TARGET_LEN as int, i as int, |k: int| self@[k], 0u8));
        }
        target
    }
}

impl<const TARGET_LEN: usize> ResponseArray<[u16; TARGET_LEN]> for [u8] {
    open spec fn holds_repeating_words(&self, number: usize) -> bool {
        let count = min(number as int, chunk_count(self@.len() as int, 2));
        count <= TARGET_LEN && 2 * count <= self@.len()
    }

    open spec fn repeating_words(&self, number: usize) -> Seq<u16> {
        filled(
            TARGET_LEN as int,
            min(number as int, chunk_count(self@.len() as int, 2)),
            |i: int| le_u16(self@[2 * i], self@[2 * i + 1]),
            0u16,
        )
    }

    fn deserialize_repeating_words(&self, number: usize) -> [u16; TARGET_LEN] {
        let mut target = [0u16; TARGET_LEN];
        let len = self.len();
        let chunks = len / 2 + len % 2;
        let count = if number < chunks {
            number
        } else {
            chunks
        };
        let mut i: usize = 0;
        while i < count
            invariant
                count == min(number as int, chunk_count(self@.len() as int, 2)),
                count <= TARGET_LEN,
                2 * count <= self@.len(),
                len == self@.len(),
                0 <= i <= count,
                target@ == filled(
                    TARGET_LEN as int,
                    i as int,
                    |k: int| le_u16(self@[2 * k], self@[2 * k + 1]),
                    0u16,
                ),
            decreases count - i,
        {
            let v = (self[2 * i] as u16) + 256 * (self[2 * i + 1] as u16);
            target[i] = v;
            i = i + 1;
            assert(target@ =~= filled(
                TARGET_LEN as int,
                i as int,
                |k: int| le_u16(self@[2 * k], self@[2 * k + 1]),
                0u16,
            ));
        }
        target
    }
}

impl<const TARGET_LEN: usize> ResponseArray<[u32; TARGET_LEN]> for [u8] {
    open spec fn holds_repeating_words(&self, number: usize) -> bool {
        let count = min(number as int, chunk_count(self@.len() as int, 4));
        count <= TARGET_LEN && 4 * count <= self@.len()
    }

    open spec fn repeating_words(&self, number: usize) -> Seq<u32> {
        filled(
            TARGET_LEN as int,
            min(number as int, chunk_count(self@.len() as int, 4)),
            |i: int| le_u32(self@[4 * i], self@[4 * i + 1], self@[4 * i + 2], self@[4 * i + 3]),
            0u32,
        )
    }

    fn deserialize_repeating_words(&self, number: usize) -> [u32; TARGET_LEN] {
        let mut target = [0u32; TARGET_LEN];
        let len = self.len();
        let chunks = len / 4 + if len % 4 == 0 {
            0
        } else {
            1
        };
        let count = if number < chunks {
            number
        } else {
            chunks
        };
        let mut i: usize = 0;
        while i < count
            invariant
                count == min(number as int, chunk_count(self@.len() as int, 4)),
                count <= TARGET_LEN,
                4 * count <= self@.len(),
                len == self@.len(),
                0 <= i <= count,
                target@ == filled(
                    TARGET_LEN as int,
                    i as int,
                    |k: int| le_u32(self@[4 * k], self@[4 * k + 1], self@[4 * k + 2], self@[4 * k + 3]),
                    0u32,
                ),
            decreases count - i,
        {
            let t = 4 * i;
            let v = (self[t] as u32) + 256 * (self[t + 1] as u32) + 65536 * (self[t + 2] as u32)
                + 16777216 * (self[t + 3] as u32);
            target[i] = v;
            i = i + 1;
            assert(target@ =~= filled(
                TARGET_LEN as int,
                i as int,
                |k: int| le_u32(self@[4 * k], self@[4 * k + 1], self@[4 * k + 2], self@[4 * k + 3]),
                0u32,
            ));
        }
        target
    }
}

impl<const TARGET_LEN: usize> ResponseArray<[i8; TARGET_LEN]> for [u8] {
    open spec fn holds_repeating_words(&self, number: usize) -> bool {
        min(number as int, self@.len() as int) <= TARGET_LEN
    }

    open spec fn repeating_words(&self, number: usize) -> Seq<i8> {
        filled(
            TARGET_LEN as int,
            min(number as int, self@.len() as int),
            |i: int| self@[i] as i8,
            0i8,
        )
    }

    fn deserialize_repeating_words(&self, number: usize) -> [i8; TARGET_LEN] {
        let mut target = [0i8; TARGET_LEN];
        let len = self.len();
        let count = if number < len {
            number
        } else {
            len
        };
        let mut i: usize = 0;
        while i < count
            invariant
                count == min(number as int, self@.len() as int),
                count <= TARGET_LEN,
                len == self@.len(),
                0 <= i <= count,
                target@ == filled(TARGET_LEN as int, i as int, |k: int| self@[k] as i8, 0i8),
            decreases count - i,
        {
            target[i] = self[i] as i8;
            i = i + 1;
            assert(target@ =~= filled(TARGET_LEN as int, i as int, |k: int| self@[k] as i8, 0i8));
        }
        target
    }
}

impl<const TARGET_LEN: usize> ResponseArray<[i16; TARGET_LEN]> for [u8] {
    open spec fn holds_repeating_words(&self, number: usize) -> bool {
        let count = min(number as int, chunk_count(self@.len() as int, 2));
        count <= TARGET_LEN && 2 * count <= self@.len()
    }

    open spec fn repeating_words(&self, number: usize) -> Seq<i16> {
        filled(
            TARGET_LEN as int,
            min(number as int, chunk_count(self@.len() as int, 2)),
            |i: int| le_u16(self@[2 * i], self@[2 * i + 1]) as i16,
            0i16,
        )
    }

    fn deserialize_repeating_words(&self, number: usize) -> [i16; TARGET_LEN] {
        let mut target = [0i16; TARGET_LEN];
        let len = self.len();
        let chunks = len / 2 + len % 2;
        let count = if number < chunks {
            number
        } else {
            chunks
        };
        let mut i: usize = 0;
        while i < count
            invariant
                count == min(number as int, chunk_count(self@.len() as int, 2)),
                count <= TARGET_LEN,
                2 * count <= self@.len(),
                len == self@.len(),
                0 <= i <= count,
                target@ == filled(
                    TARGET_LEN as int,
                    i as int,
                    |k: int| le_u16(self@[2 * k], self@[2 * k + 1]) as i16,
                    0i16,
                ),
            decreases count - i,
        {
            let v = (self[2 * i] as u16) + 256 * (self[2 * i + 1] as u16);
            target[i] = v as i16;
            i = i + 1;
            assert(target@ =~= filled(
                TARGET_LEN as int,
                i as int,
                |k: int| le_u16(self@[2 * k], self@[2 * k + 1]) as i16,
                0i16,
            ));
        }
        target
    }
}

impl<const TARGET_LEN: usize> ResponseArray<[i32; TARGET_LEN]> for [u8] {
    open spec fn holds_repeating_words(&self, number: usize) -> bool {
        let count = min(number as int, chunk_count(self@.len() as int, 4));
        count <= TARGET_LEN && 4 * count <= self@.len()
    }

    open spec fn repeating_words(&self, number: usize) -> Seq<i32> {
        filled(
            TARGET_LEN as int,
            min(number as int, chunk_count(self@.len() as int, 4)),
            |i: int| le_u32(self@[4 * i], self@[4 * i + 1], self@[4 * i + 2], self@[4 * i + 3]) as i32,
            0i32,
        )
    }

    fn deserialize_repeating_words(&self, number: usize) -> [i32; TARGET_LEN] {
        let mut target = [0i32; TARGET_LEN];
        let len = self.len();
        let chunks = len / 4 + if len % 4 == 0 {
            0
        } else {
            1
        };
        let count = if number < chunks {
            number
        } else {
            chunks
        };
        let mut i: usize = 0;
        while i < count
            invariant
                count == min(number as int, chunk_count(self@.len() as int, 4)),
                count <= TARGET_LEN,
                4 * count <= self@.len(),
                len == self@.len(),
                0 <= i <= count,
                target@ == filled(
                    TARGET_LEN as int,
                    i as int,
                    |k: int| le_u32(self@[4 * k], self@[4 * k + 1], self@[4 * k + 2], self@[4 * k + 3]) as i32,
                    0i32,
                ),
            decreases count - i,
        {
            let t = 4 * i;
            let v = (self[t] as u32) + 256 * (self[t + 1] as u32) + 65536 * (self[t + 2] as u32)
                + 16777216 * (self[t + 3] as u32);
            target[i] = v as i32;
            i = i + 1;
            assert(target@ =~= filled(
                TARGET_LEN as int,
                i as int,
                |k: int| le_u32(self@[4 * k], self@[4 * k + 1], self@[4 * k + 2], self@[4 * k + 3]) as i32,
                0i32,
            ));
        }
        target
    }
}

} // verus!
