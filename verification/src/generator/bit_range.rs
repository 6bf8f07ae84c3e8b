//! The bit range of a field in a definition file: a single bit, `"2"`, or an
//! inclusive range of bits, `"2..5"`.

use vstd::prelude::*;
use vstd::string::*;

verus! {

/// An inclusive range of bits, its start first.
#[derive(Debug, Copy, Clone, PartialEq, Eq)]
pub struct BitRange(pub u8, pub u8);

/// Why a bit range could not be read.
#[derive(Debug, Clone, PartialEq, Eq)]
pub enum BitRangeError {
    /// The text is neither a bit number nor two bit numbers around `..`.
    InvalidRangeFormat,
    /// The range starts after it ends.
    ReversedRange,
}

/// Whether a character is a decimal digit.
pub open spec fn is_digit(c: char) -> bool {
    '0' <= c && c <= '9'
}

/// The number that a string of decimal digits writes.
pub open spec fn digits_value(s: Seq<char>) -> nat
    decreases s.len(),
{
    if s.len() == 0 {
        0
    } else {
        digits_value(s.drop_last()) * 10 + ((s.last() as u32) - ('0' as u32)) as nat
    }
}

/// The digits of an unsigned number: the text without its optional `+`.
pub open spec fn unsigned_digits(s: Seq<char>) -> Seq<char> {
    if s.len() > 0 && s[0] == '+' {
        s.drop_first()
    } else {
        s
    }
}

/// The `u8` that a text writes, as `str::parse::<u8>` reads it: an optional
/// `+`, then one or more decimal digits, of a value below 256.
pub open spec fn u8_text(s: Seq<char>) -> Option<u8> {
    let d = unsigned_digits(s);
    if d.len() > 0 && (forall|i: int| 0 <= i < d.len() ==> is_digit(#[trigger] d[i]))
        && digits_value(d) <= 255 {
        Some(digits_value(d) as u8)
    } else {
        None
    }
}

/// The position of the first `..` at or after position `i`, if any.
pub open spec fn find_dots(s: Seq<char>, i: int) -> Option<int>
    decreases s.len() - i,
{
    if i < 0 || i + 1 >= s.len() {
        None
    } else if s[i] == '.' && s[i + 1] == '.' {
        Some(i)
    } else {
        find_dots(s, i + 1)
    }
}

/// The bit range that a text writes: a bit number alone stands for a range
/// of one bit; otherwise the text splits at each `..`, and its first two
/// parts are the start and the end.
pub open spec fn bit_range_text(s: Seq<char>) -> Result<BitRange, BitRangeError> {
    match u8_text(s) {
        Some(n) => Ok(BitRange(n, n)),
        None => match find_dots(s, 0) {
            None => Err(BitRangeError::InvalidRangeFormat),
            Some(p) => {
                let rest = s.subrange(p + 2, s.len() as int);
                let second = match find_dots(rest, 0) {
                    Some(q) => rest.subrange(0, q),
                    None => rest,
                };
                match (u8_text(s.subrange(0, p)), u8_text(second)) {
                    (Some(start), Some(end)) => if start <= end {
                        Ok(BitRange(start, end))
                    } else {
                        Err(BitRangeError::ReversedRange)
                    },
                    _ => Err(BitRangeError::InvalidRangeFormat),
                }
            },
        },
    }
}

/// Reads an unsigned byte from the characters of `s` in `from..to`.
fn parse_u8(s: &str, from: usize, to: usize) -> (r: Option<u8>)
    requires
        from <= to <= s@.len(),
    ensures
        r == u8_text(s@.subrange(from as int, to as int)),
{
    let ghost t = s@.subrange(from as int, to as int);
    let mut i = from;
    if i < to && s.get_char(i) == '+' {
        i = i + 1;
    }
    let ghost d = unsigned_digits(t);
    assert(d =~= s@.subrange(i as int, to as int));
    if i == to {
        return None;
    }
    let start = i;
    let mut acc: u32 = 0;
    while i < to
        invariant
            from <= start <= i <= to <= s@.len(),
            t == s@.subrange(from as int, to as int),
            d == unsigned_digits(t),
            d.len() > 0,
            d =~= s@.subrange(start as int, to as int),
            forall|k: int| 0 <= k < i - start ==> is_digit(#[trigger] d[k]),
            acc <= 256,
            acc == if digits_value(d.take(i - start)) <= 256 {
                digits_value(d.take(i - start))
            } else {
                256
            },
        decreases to - i,
    {
        let c = s.get_char(i);
        if c < '0' || c > '9' {
            assert(d[i - start] == c);
            assert(!is_digit(d[i - start]));
            assert(u8_text(t) is None);
            return None;
        }
        let digit = (c as u32) - ('0' as u32);
        assert(d.take(i - start + 1).drop_last() =~= d.take(i - start));
        assert(d.take(i - start + 1).last() == c);
        acc = acc * 10 + digit;
        if acc > 256 {
            acc = 256;
        }
        i = i + 1;
    }
    assert(d.take(i - start) =~= d);
    if acc <= 255 {
        Some(acc as u8)
    } else {
        None
    }
}

/// The position of the first `..` in `s` at or after `i`, if any.
fn find_dots_from(s: &str, n: usize, i: usize) -> (r: Option<usize>)
    requires
        n == s@.len(),
        i <= n,
    ensures
        match r {
            Some(p) => find_dots(s@, i as int) == Some(p as int) && i <= p && p + 2 <= n,
            None => find_dots(s@, i as int) is None,
        },
    decreases n - i,
{
    if n - i < 2 {
        None
    } else if s.get_char(i) == '.' && s.get_char(i + 1) == '.' {
        Some(i)
    } else {
        find_dots_from(s, n, i + 1)
    }
}

/// The dots searched for in a tail of a text are found there at the same
/// place, moved by the tail's start.
proof fn lemma_find_dots_tail(s: Seq<char>, from: int, i: int)
    requires
        0 <= from <= s.len(),
        0 <= i,
    ensures
        find_dots(s.subrange(from, s.len() as int), i) == match find_dots(s, from + i) {
            Some(q) => Some(q - from),
            None => None::<int>,
        },
    decreases s.len() - (from + i),
{
    let t = s.subrange(from, s.len() as int);
    if i + 1 < t.len() {
        if !(t[i] == '.' && t[i + 1] == '.') {
            lemma_find_dots_tail(s, from, i + 1);
        }
    }
}

/// Law: a bit range that is read never starts after it ends, and a bit
/// number alone reads as the range of that one bit.
pub proof fn law_bit_range_text_ordered(s: Seq<char>)
    ensures
        bit_range_text(s) matches Ok(r) ==> r.0 <= r.1,
        u8_text(s) matches Some(n) ==> bit_range_text(s) == Ok::<BitRange, BitRangeError>(
            BitRange(n, n),
        ),
{
}

impl BitRange {
    /// Reads a bit range: a bit number (`"2"`) is a range of that one bit; a
    /// start and an end around `..` (`"2..5"`) are a range of bits, which
    /// must not start after it ends.
    pub fn from_text(s: &str) -> (r: Result<BitRange, BitRangeError>)
        ensures
            r == bit_range_text(s@),
    {
        let n = s.unicode_len();
        if let Some(v) = parse_u8(s, 0, n) {
            proof {
                assert(s@.subrange(0, n as int) =~= s@);
            }
            return Ok(BitRange(v, v));
        }
        proof {
            assert(s@.subrange(0, n as int) =~= s@);
        }
        let p = match find_dots_from(s, n, 0) {
            Some(p) => p,
            None => {
                return Err(BitRangeError::InvalidRangeFormat);
            },
        };
        let ghost rest = s@.subrange(p + 2, n as int);
        let q = match find_dots_from(s, n, p + 2) {
            Some(q) => q,
            None => n,
        };
        proof {
            lemma_find_dots_tail(s@, p + 2, 0);
            if q < n {
                assert(rest.subrange(0, q - (p + 2)) =~= s@.subrange(p + 2, q as int));
            } else {
                assert(rest =~= s@.subrange(p + 2, q as int));
            }
        }
        let start = parse_u8(s, 0, p);
        let end = parse_u8(s, p + 2, q);
        match (start, end) {
            (Some(start), Some(end)) => {
                if start <= end {
                    Ok(BitRange(start, end))
                } else {
                    Err(BitRangeError::ReversedRange)
                }
            },
            _ => Err(BitRangeError::InvalidRangeFormat),
        }
    }

    /// Whether the range is a single bit.
    pub fn is_single_bit(&self) -> (r: bool)
        ensures
            r == (self.0 == self.1),
    {
        self.0 == self.1
    }

    /// The first bit of the range.
    pub fn start(&self) -> (r: u8)
        ensures
            r == self.0,
    {
        self.0
    }

    /// The last bit of the range.
    pub fn end(&self) -> (r: u8)
        ensures
            r == self.1,
    {
        self.1
    }
}

} // verus!
