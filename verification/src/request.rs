//! Writing the fields of a request into its bytes. Words wider than a byte
//! are written little endian.

use vstd::prelude::*;

use crate::bits::{spec_modify_bit, spec_modify_field, Bits};
use crate::serialize::Serialize;

verus! {

/// The two bytes of a `u16`, least significant first.
pub open spec fn le_bytes_u16(v: u16) -> Seq<u8> {
    seq![(v % 256) as u8, (v / 256) as u8]
}

/// The four bytes of a `u32`, least significant first.
pub open spec fn le_bytes_u32(v: u32) -> Seq<u8> {
    seq![(v % 256) as u8, ((v / 256) % 256) as u8, ((v / 65536) % 256) as u8, (v / 16777216) as u8]
}

/// Writing a single bit of a word.
pub trait RequestBit {
    /// Writes `source` to the bit at `position`.
    fn serialize_bit(&mut self, source: bool, position: usize)
        requires
            position < 8,
    ;
}

impl RequestBit for u8 {
    fn serialize_bit(&mut self, source: bool, position: usize)
        ensures
            *final(self) == spec_modify_bit(*old(self), position as u8, source),
    {
        self.modify_bit(position, source);
    }
}

/// Writing a field of bits of a word.
pub trait RequestField {
    /// Writes `source` to the bits `start..=end`.
    fn serialize_field(&mut self, source: u8, start: usize, end: usize)
        requires
            start < 8,
            start <= end,
            end - start < 7,
    ;
}

impl RequestField for u8 {
    fn serialize_field(&mut self, source: u8, start: usize, end: usize)
        ensures
            *final(self) == spec_modify_field(*old(self), source, start as u8, end as u8),
    {
        self.modify_field(source, start, end);
    }
}

/// Writing a whole word (of one or more bytes).
pub trait RequestWord<T> {
    /// Whether the target has room for the word.
    spec fn has_room_for_word(&self) -> bool;

    /// Writes the word `source`.
    fn serialize_word(&mut self, source: T)
        requires
            old(self).has_room_for_word(),
    ;
}

impl RequestWord<u8> for u8 {
    open spec fn has_room_for_word(&self) -> bool {
        true
    }

    fn serialize_word(&mut self, source: u8)
        ensures
            *final(self) == source,
    {
        *self = source;
    }
}

impl RequestWord<i8> for u8 {
    open spec fn has_room_for_word(&self) -> bool {
        true
    }

    fn serialize_word(&mut self, source: i8)
        ensures
            *final(self) == source as u8,
    {
        *self = source as u8;
    }
}

/// Writes the two bytes of `v` at the start of `target`.
fn write_u16(target: &mut [u8], v: u16)
    requires
        old(target)@.len() >= 2,
    ensures
        final(target)@ == le_bytes_u16(v) + old(target)@.subrange(2, old(target)@.len() as int),
{
    target[0] = (v % 256) as u8;
    target[1] = (v / 256) as u8;
    assert(target@ =~= le_bytes_u16(v) + old(target)@.subrange(2, old(target)@.len() as int));
}

/// Writes the four bytes of `v` at the start of `target`.
fn write_u32(target: &mut [u8], v: u32)
    requires
        old(target)@.len() >= 4,
    ensures
        final(target)@ == le_bytes_u32(v) + old(target)@.subrange(4, old(target)@.len() as int),
{
    target[0] = (v % 256) as u8;
    target[1] = ((v / 256) % 256) as u8;
    target[2] = ((v / 65536) % 256) as u8;
    target[3] = (v / 16777216) as u8;
    assert(target@ =~= le_bytes_u32(v) + old(target)@.subrange(4, old(target)@.len() as int));
}

impl RequestWord<u16> for [u8] {
    open spec fn has_room_for_word(&self) -> bool {
        self@.len() >= 2
    }

    fn serialize_word(&mut self, source: u16)
        ensures
            final(self)@ == le_bytes_u16(source) + old(self)@.subrange(2, old(self)@.len() as int),
    {
        write_u16(self, source);
    }
}

impl RequestWord<i16> for [u8] {
    open spec fn has_room_for_word(&self) -> bool {
        self@.len() >= 2
    }

    fn serialize_word(&mut self, source: i16)
        ensures
            final(self)@ == le_bytes_u16(source as u16) + old(self)@.subrange(
                2,
                old(self)@.len() as int,
            ),
    {
        write_u16(self, source as u16);
    }
}

impl RequestWord<u32> for [u8] {
    open spec fn has_room_for_word(&self) -> bool {
        self@.len() >= 4
    }

    fn serialize_word(&mut self, source: u32)
        ensures
            final(self)@ == le_bytes_u32(source) + old(self)@.subrange(4, old(self)@.len() as int),
    {
        write_u32(self, source);
    }
}

impl RequestWord<i32> for [u8] {
    open spec fn has_room_for_word(&self) -> bool {
        self@.len() >= 4
    }

    fn serialize_word(&mut self, source: i32)
        ensures
            final(self)@ == le_bytes_u32(source as u32) + old(self)@.subrange(
                4,
                old(self)@.len() as int,
            ),
    {
        write_u32(self, source as u32);
    }
}

/// Writing repeated words from an array.
pub trait RequestArray<T> {
    /// Whether `number` words of `source` can be written to the target.
    spec fn fits_repeating_words(&self, source: T, number: usize) -> bool;

    /// Writes the first `number` words of `source`.
    fn serialize_repeating_words(&mut self, source: T, number: usize)
        requires
            old(self).fits_repeating_words(source, number),
    ;
}

impl<const SOURCE_LEN: usize> RequestArray<[u8; SOURCE_LEN]> for [u8] {
    /// The target has exactly `number` bytes, and the source that many.
    open spec fn fits_repeating_words(&self, source: [u8; SOURCE_LEN], number: usize) -> bool {
        number <= SOURCE_LEN && self@.len() == number
    }

    fn serialize_repeating_words(&mut self, source: [u8; SOURCE_LEN], number: usize)
        ensures
            final(self)@ == source@.take(number as int),
    {
        let mut i: usize = 0;
        while i < number
            invariant
                number <= SOURCE_LEN,
                self@.len() == number,
                0 <= i <= number,
                forall|k: int| 0 <= k < i ==> self@[k] == source@[k],
            decreases number - i,
        {
            self[i] = source[i];
            i = i + 1;
        }
        assert(self@ =~= source@.take(number as int));
    }
}

impl<const SOURCE_LEN: usize> RequestArray<[u16; SOURCE_LEN]> for [u8] {
    /// The source has `number` words and the target room for their bytes.
    open spec fn fits_repeating_words(&self, source: [u16; SOURCE_LEN], number: usize) -> bool {
        number <= SOURCE_LEN && 2 * number <= self@.len()
    }

    fn serialize_repeating_words(&mut self, source: [u16; SOURCE_LEN], number: usize)
        ensures
            final(self)@.len() == old(self)@.len(),
            forall|i: int|
                0 <= i < number ==> final(self)@.subrange(2 * i, 2 * i + 2) == le_bytes_u16(
                    #[trigger] source@[i],
                ),
            forall|k: int|
                2 * number <= k < old(self)@.len() ==> #[trigger] final(self)@[k] == old(self)@[k],
    {
        let len = self.len();
        let mut i: usize = 0;
        while i < number
            invariant
                number <= SOURCE_LEN,
                2 * number <= old(self)@.len(),
                len == old(self)@.len(),
                self@.len() == old(self)@.len(),
                0 <= i <= number,
                forall|j: int|
                    0 <= j < i ==> self@[2 * j] == (source@[j] % 256) as u8 && self@[2 * j + 1] == (
                    source@[j] / 256) as u8,
                forall|k: int| 2 * i <= k < old(self)@.len() ==> #[trigger] self@[k] == old(self)@[k],
            decreases number - i,
        {
            let v = source[i];
            self[2 * i] = (v % 256) as u8;
            self[2 * i + 1] = (v / 256) as u8;
            i = i + 1;
        }
        assert forall|j: int| 0 <= j < number implies self@.subrange(2 * j, 2 * j + 2)
            == le_bytes_u16(#[trigger] source@[j]) by {
            assert(self@.subrange(2 * j, 2 * j + 2) =~= le_bytes_u16(source@[j]));
        }
    }
}

/// The smaller of two numbers.
pub open spec fn min(a: int, b: int) -> int {
    if a <= b {
        a
    } else {
        b
    }
}

impl<const SOURCE_LEN: usize> RequestArray<[u32; SOURCE_LEN]> for [u8] {
    /// The target has room for the bytes of the words written: `number`
    /// words, but no more than the source holds.
    open spec fn fits_repeating_words(&self, source: [u32; SOURCE_LEN], number: usize) -> bool {
        4 * min(number as int, SOURCE_LEN as int) <= self@.len()
    }

    fn serialize_repeating_words(&mut self, source: [u32; SOURCE_LEN], number: usize)
        ensures
            final(self)@.len() == old(self)@.len(),
            forall|i: int|
                0 <= i < min(number as int, SOURCE_LEN as int) ==> final(self)@.subrange(
                    4 * i,
                    4 * i + 4,
                ) == le_bytes_u32(#[trigger] source@[i]),
            forall|k: int|
                4 * min(number as int, SOURCE_LEN as int) <= k < old(self)@.len() ==> #[trigger] final(self)@[k] == old(self)@[k],
    {
        let count = if number < SOURCE_LEN {
            number
        } else {
            SOURCE_LEN
        };
        let len = self.len();
        let mut i: usize = 0;
        while i < count
            invariant
                len == old(self)@.len(),
                count == min(number as int, SOURCE_LEN as int),
                count <= SOURCE_LEN,
                4 * count <= old(self)@.len(),
                self@.len() == old(self)@.len(),
                0 <= i <= count,
                forall|j: int|
                    0 <= j < i ==> self@.subrange(4 * j, 4 * j + 4) == le_bytes_u32(
                        #[trigger] source@[j],
                    ),
                forall|k: int| 4 * i <= k < old(self)@.len() ==> #[trigger] self@[k] == old(self)@[k],
            decreases count - i,
        {
            let v = source[i];
            let t = 4 * i;
            let ghost before = self@;
            self[t] = (v % 256) as u8;
            self[t + 1] = ((v / 256) % 256) as u8;
            self[t + 2] = ((v / 65536) % 256) as u8;
            self[t + 3] = (v / 16777216) as u8;
            assert forall|j: int| 0 <= j < i + 1 implies self@.subrange(4 * j, 4 * j + 4)
                == le_bytes_u32(#[trigger] source@[j]) by {
                if j < i {
                    assert(self@.subrange(4 * j, 4 * j + 4) =~= before.subrange(4 * j, 4 * j + 4));
                } else {
                    assert(self@.subrange(4 * j, 4 * j + 4) =~= le_bytes_u32(source@[j]));
                }
            }
            i = i + 1;
        }
    }
}

/// Copies the `size` valid bytes of a serialized structure into `target`
/// when `target` has exactly that many bytes and `data` holds them; reports
/// whether it did. Otherwise `target` is left as it was.
pub fn copy_serialized<const N: usize>(target: &mut [u8], size: usize, data: &[u8; N]) -> (copied:
    bool)
    ensures
        copied == (size <= N && old(target)@.len() == size),
        copied ==> final(target)@ == data@.take(size as int),
        !copied ==> final(target)@ == old(target)@,
{
    if size > N || target.len() != size {
        return false;
    }
    let mut i: usize = 0;
    while i < size
        invariant
            size <= N,
            target@.len() == size,
            0 <= i <= size,
            forall|k: int| 0 <= k < i ==> target@[k] == data@[k],
        decreases size - i,
    {
        target[i] = data[i];
        i = i + 1;
    }
    assert(target@ =~= data@.take(size as int));
    true
}

/// Writing a structure.
pub trait RequestStruct<T: Serialize> {
    /// Whether the target holds exactly `size` bytes.
    spec fn holds_struct(&self, size: usize) -> bool;

    /// The bytes of the target.
    spec fn struct_bytes(&self) -> Seq<u8>;

    /// Writes the valid bytes of the serialized form of `source`, made in a
    /// buffer of `TARGET_LEN` bytes; the target has exactly as many bytes as
    /// are valid.
    fn serialize_struct<const TARGET_LEN: usize>(&mut self, source: T)
        requires
            forall|s: (usize, [u8; TARGET_LEN], T::Provider)|
                #[trigger] call_ensures(T::serialize::<TARGET_LEN>, (&source,), s) ==> s.0 <= TARGET_LEN
                    && old(self).holds_struct(s.0),
        ensures
            exists|s: (usize, [u8; TARGET_LEN], T::Provider)|
                #[trigger] call_ensures(T::serialize::<TARGET_LEN>, (&source,), s) && final(self).struct_bytes()
                    == s.1@.take(s.0 as int),
    ;
}

impl<T: Serialize> RequestStruct<T> for [u8] {
    open spec fn holds_struct(&self, size: usize) -> bool {
        self@.len() == size
    }

    open spec fn struct_bytes(&self) -> Seq<u8> {
        self@
    }

    /// Serializes `source` into a buffer of `TARGET_LEN` bytes and copies its
    /// valid bytes into the target.
    fn serialize_struct<const TARGET_LEN: usize>(&mut self, source: T) {
        let serialized = source.serialize::<TARGET_LEN>();
        assert(call_ensures(T::serialize::<TARGET_LEN>, (&source,), serialized));
        assert(serialized.0 <= TARGET_LEN);
        assert(self@.len() == serialized.0);
        let (size, data, _) = serialized;
        let copied = copy_serialized(self, size, &data);
        assert(copied);
        assert(self@ == serialized.1@.take(serialized.0 as int));
    }
}

} // verus!
