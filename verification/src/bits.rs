//! Bit manipulation of the 8-bit words that make up a device's data.

use vstd::prelude::*;

verus! {

/// Bit `p` of `v` (bit 0 is the least significant).
pub open spec fn bit_of(v: u8, p: u8) -> bool {
    (v >> p) & 1u8 == 1u8
}

/// A mask of the lowest `n` bits.
pub open spec fn low_mask(n: u8) -> u8 {
    if n >= 8 {
        0xffu8
    } else {
        ((1u16 << n) - 1) as u8
    }
}

/// The bits `start..=end` of `v`, moved down to bit 0; nothing when the
/// range is empty.
pub open spec fn spec_field(v: u8, start: u8, end: u8) -> u8 {
    if start <= end {
        (v >> start) & low_mask((end - start + 1) as u8)
    } else {
        0
    }
}

/// `v` with bit `p` set (`state`) or cleared (not `state`).
pub open spec fn spec_modify_bit(v: u8, p: u8, state: bool) -> u8 {
    if state {
        v | (1u8 << p)
    } else {
        v & !(1u8 << p)
    }
}

/// The bits a field from `start` to `end` covers in a word (bits past the
/// word are cut off).
pub open spec fn field_mask(start: u8, end: u8) -> u8 {
    (low_mask((end - start + 1) as u8) << start) as u8
}

/// `v` with the bits of the field `start..=end` cleared and `value`, moved up
/// to bit `start`, put in; bits of `value` past the field's width are not
/// cut off and land above the field.
pub open spec fn spec_modify_field(v: u8, value: u8, start: u8, end: u8) -> u8 {
    (v & !field_mask(start, end)) | ((value << start) as u8)
}

/// Bit manipulation of a word.
pub trait Bits {
    /// Get a boolean from a bit position.
    fn bit(&self, position: usize) -> bool
        requires
            position < 8,
    ;

    /// Get the bits `start..=end` as a number.
    fn field(&self, start: usize, end: usize) -> u8
        requires
            start < 8,
            start <= end ==> end < 8,
    ;

    /// Set (`state`) or clear (not `state`) the bit at `position`.
    fn modify_bit(&mut self, position: usize, state: bool)
        requires
            position < 8,
    ;

    /// Modify the field as specified by the start and end bit positions.
    ///
    /// Warning: attempting to modify the whole word or having end less than
    /// start is refused: the field must be narrower than the word.
    fn modify_field(&mut self, value: u8, start: usize, end: usize)
        requires
            start < 8,
            start <= end,
            end - start < 7,
    ;
}

impl Bits for u8 {
    /// Get a boolean from a bit position.
    fn bit(&self, position: usize) -> (r: bool)
        ensures
            r == bit_of(*self, position as u8),
    {
        let mask: u8 = 1u8 << (position as u8);
        let r = (*self & mask) > 0;
        proof {
            let v = *self;
            let p = position as u8;
            assert((v & (1u8 << p) > 0) == ((v >> p) & 1u8 == 1u8)) by (bit_vector)
                requires
                    p < 8,
            ;
        }
        r
    }

    fn field(&self, start: usize, end: usize) -> (r: u8)
        ensures
            r == spec_field(*self, start as u8, end as u8),
    {
        let mut mask: u8 = 0;
        let mut count: usize = start;
        let s = start as u8;
        proof {
            assert((((((1u16 << 0u8) - 1) as u8) << s) as u8) == 0u8) by (bit_vector)
                requires
                    s < 8,
            ;
        }
        while count <= end
            invariant
                start < 8,
                start <= end ==> end < 8,
                start <= count,
                start <= end ==> count <= end + 1,
                start > end ==> count == start,
                s == start as u8,
                mask == (low_mask((count - start) as u8) << s) as u8,
            decreases end + 1 - count,
        {
            let c = count as u8;
            let b: u8 = 1u8 << c;
            proof {
                let k = (count - start) as u8;
                assert(((low_mask(k) << s) as u8 | (1u8 << c)) == (low_mask((k + 1) as u8) << s) as u8)
                    by (bit_vector)
                    requires
                        c < 8,
                        s <= c,
                        k == c - s,
                        low_mask(k) == (if k >= 8 { 0xffu8 } else { ((1u16 << k) - 1) as u8 }),
                        low_mask((k + 1) as u8) == (if k + 1 >= 8 { 0xffu8 } else { ((1u16 << (k + 1) as u8) - 1) as u8 }),
                ;
            }
            mask = mask | b;
            count = count + 1;
        }
        let v = *self & mask;
        let r = v >> s;
        proof {
            let w = *self;
            if start <= end {
                let n = (end - start + 1) as u8;
                assert(((w & ((low_mask(n) << s) as u8)) >> s) == ((w >> s) & low_mask(n)))
                    by (bit_vector)
                    requires
                        s < 8,
                        n >= 1,
                        s + n <= 8,
                        low_mask(n) == (if n >= 8 { 0xffu8 } else { ((1u16 << n) - 1) as u8 }),
                ;
            } else {
                assert(((1u16 << 0u8) - 1) as u8 == 0u8) by (bit_vector);
                assert(low_mask(0) == 0u8);
                assert(((w & ((0u8 << s) as u8)) >> s) == 0u8) by (bit_vector)
                    requires
                        s < 8,
                ;
            }
        }
        r
    }

    fn modify_bit(&mut self, position: usize, state: bool)
        ensures
            *final(self) == spec_modify_bit(*old(self), position as u8, state),
    {
        let mut mask: u8 = 1u8 << (position as u8);
        if state {
            *self = *self | mask;
        } else {
            mask = !mask;
            *self = *self & mask;
        }
    }

    fn modify_field(&mut self, value: u8, start: usize, end: usize)
        ensures
            *final(self) == spec_modify_field(*old(self), value, start as u8, end as u8),
    {
        let n = (end - start + 1) as u8;
        let s = start as u8;
        proof {
            assert(1u8 << n >= 1u8) by (bit_vector)
                requires
                    n < 8,
            ;
        }
        let mask: u8 = ((1u8 << n) - 1) << s;
        let cleared_bits = *self & !mask;
        let new_bits = value << s;
        *self = cleared_bits | new_bits;
        proof {
            assert(((((1u8 << n) - 1) as u8) << s) == (((((1u16 << n) - 1) as u8) << s) as u8))
                by (bit_vector)
                requires
                    1 <= n < 8,
                    s < 8,
            ;
        }
    }
}

/// Law: after a bit is set or cleared, reading it gives the state written,
/// and every other bit reads as before.
pub proof fn law_bit_after_modify_bit(v: u8, p: u8, state: bool, q: u8)
    requires
        p < 8,
        q < 8,
    ensures
        bit_of(spec_modify_bit(v, p, state), q) == if q == p {
            state
        } else {
            bit_of(v, q)
        },
{
    if state {
        assert(((v | (1u8 << p)) >> q) & 1u8 == 1u8 <==> (q == p || (v >> q) & 1u8 == 1u8))
            by (bit_vector)
            requires
                p < 8,
                q < 8,
        ;
    } else {
        assert(((v & !(1u8 << p)) >> q) & 1u8 == 1u8 <==> (q != p && (v >> q) & 1u8 == 1u8))
            by (bit_vector)
            requires
                p < 8,
                q < 8,
        ;
    }
}

/// Law: after a field is written with a value that fits its width, reading
/// the field gives that value back.
pub proof fn law_field_after_modify_field(v: u8, x: u8, start: u8, end: u8)
    requires
        start <= end < 8,
        end - start < 7,
        x <= low_mask((end - start + 1) as u8),
    ensures
        spec_field(spec_modify_field(v, x, start, end), start, end) == x,
{
    let n = (end - start + 1) as u8;
    let m = ((1u16 << n) - 1) as u8;
    assert(low_mask(n) == m);
    assert((((v & !((m << start) as u8)) | ((x << start) as u8)) >> start) & m == x)
        by (bit_vector)
        requires
            1 <= n < 8,
            start + n <= 8,
            m == ((1u16 << n) - 1) as u8,
            x <= m,
    ;
}

/// Law: writing a field with a value that fits its width leaves every bit
/// outside the field as it was.
pub proof fn law_modify_field_keeps_other_bits(v: u8, x: u8, start: u8, end: u8, q: u8)
    requires
        start <= end < 8,
        end - start < 7,
        x <= low_mask((end - start + 1) as u8),
        q < 8,
        q < start || q > end,
    ensures
        bit_of(spec_modify_field(v, x, start, end), q) == bit_of(v, q),
{
    let n = (end - start + 1) as u8;
    let m = ((1u16 << n) - 1) as u8;
    assert(low_mask(n) == m);
    assert(((((v & !((m << start) as u8)) | ((x << start) as u8)) >> q) & 1u8 == 1u8) == ((v
        >> q) & 1u8 == 1u8)) by (bit_vector)
        requires
            1 <= n < 8,
            start + n <= 8,
            m == ((1u16 << n) - 1) as u8,
            x <= m,
            q < 8,
            q < start || q >= start + n,
    ;
}

/// Law: a field of one bit reads as 1 exactly when that bit is set.
pub proof fn law_one_bit_field(v: u8, p: u8)
    requires
        p < 8,
    ensures
        spec_field(v, p, p) == if bit_of(v, p) {
            1u8
        } else {
            0u8
        },
{
    assert(((1u16 << 1u8) - 1) as u8 == 1u8) by (bit_vector);
    assert(low_mask(1) == 1u8);
    assert((v >> p) & 1u8 == (if (v >> p) & 1u8 == 1u8 {
        1u8
    } else {
        0u8
    })) by (bit_vector);
}

} // verus!
