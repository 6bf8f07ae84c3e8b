//! The textual form of bit specifications: how a [`BitSpec`] and its parts
//! are written, both as a mathematical function and as executable printers.

use vstd::prelude::*;
use vstd::string::*;

use crate::bit_spec::{BitRange, BitRangeV, BitSpec, BitSpecV, LiteralType, Repeat, RepeatV, Word, WordV};

verus! {

/// The decimal digits, indexed by their value.
pub open spec fn digit_chars() -> Seq<char> {
    seq!['0', '1', '2', '3', '4', '5', '6', '7', '8', '9']
}

/// The decimal representation of a natural number, without leading zeros.
pub open spec fn dec(n: nat) -> Seq<char>
    decreases n,
{
    if n < 10 {
        seq![digit_chars()[n as int]]
    } else {
        dec(n / 10).push(digit_chars()[(n % 10) as int])
    }
}

/// How a bit range is written inside the brackets of a word.
pub open spec fn range_text(r: BitRangeV) -> Seq<char> {
    match r {
        BitRangeV::Single(p) => dec(p as nat),
        BitRangeV::Range(a, b) => dec(a as nat) + seq!['.', '.'] + dec(b as nat),
        BitRangeV::WholeWord => Seq::empty(),
        BitRangeV::Literal(l) => l,
    }
}

/// How a word is written: its index followed by its bit range in brackets.
pub open spec fn word_text(w: WordV) -> Seq<char> {
    dec(w.index as nat) + seq!['['] + range_text(w.bit_range) + seq![']']
}

/// How a repeat is written (after the `;` of a bit specification).
pub open spec fn repeat_text(r: RepeatV) -> Seq<char>
    decreases r,
{
    match r {
        RepeatV::NoRepeat => Seq::empty(),
        RepeatV::Fixed { number } => dec(number as nat),
        RepeatV::Dependent { bit_spec, limit } => seq!['('] + bit_spec_text(*bit_spec) + seq![
            ')',
            '<',
            '=',
        ] + dec(limit as nat),
        RepeatV::Variable { limit } => seq!['<', '='] + dec(limit as nat),
    }
}

/// How a bit specification is written: the start word, then `..` and the end
/// word if there is one, then `;` and the repeat if there is one.
pub open spec fn bit_spec_text(b: BitSpecV) -> Seq<char>
    decreases b,
{
    let end = match b.end {
        Some(w) => seq!['.', '.'] + word_text(w),
        None => Seq::empty(),
    };
    let rep = match b.repeat {
        RepeatV::NoRepeat => Seq::empty(),
        _ => seq![';'] + repeat_text(b.repeat),
    };
    word_text(b.start) + end + rep
}

/// The string holding the single decimal digit `d`.
fn digit_str(d: usize) -> (r: &'static str)
    requires
        d < 10,
    ensures
        r@ == seq![digit_chars()[d as int]],
{
    proof {
        reveal_strlit("0");
        reveal_strlit("1");
        reveal_strlit("2");
        reveal_strlit("3");
        reveal_strlit("4");
        reveal_strlit("5");
        reveal_strlit("6");
        reveal_strlit("7");
        reveal_strlit("8");
        reveal_strlit("9");
    }
    match d {
        0 => "0",
        1 => "1",
        2 => "2",
        3 => "3",
        4 => "4",
        5 => "5",
        6 => "6",
        7 => "7",
        8 => "8",
        _ => "9",
    }
}

/// Writes `n` in decimal.
pub fn decimal(n: usize) -> (r: String)
    ensures
        r@ == dec(n as nat),
    decreases n,
{
    if n < 10 {
        String::from_str(digit_str(n))
    } else {
        let mut s = decimal(n / 10);
        s.append(digit_str(n % 10));
        s
    }
}

/// Whether two texts are the same.
pub fn same_text(a: &str, b: &str) -> (r: bool)
    ensures
        r == (a@ == b@),
{
    let n = a.unicode_len();
    if n != b.unicode_len() {
        return false;
    }
    let mut i: usize = 0;
    while i < n
        invariant
            n == a@.len(),
            n == b@.len(),
            0 <= i <= n,
            forall|k: int| 0 <= k < i ==> a@[k] == b@[k],
        decreases n - i,
    {
        if a.get_char(i) != b.get_char(i) {
            return false;
        }
        i = i + 1;
    }
    assert(a@ =~= b@);
    true
}

impl LiteralType {
    /// The literal with its base prefix: `0x` for hexadecimal, `0b` for binary.
    pub fn to_string(&self) -> (r: String)
        ensures
            r@ == match self {
                LiteralType::Hex(l) => seq!['0', 'x'] + l@,
                LiteralType::Bin(l) => seq!['0', 'b'] + l@,
            },
    {
        match self {
            LiteralType::Bin(l) => {
                proof {
                    reveal_strlit("0b");
                }
                let s = String::from_str("0b");
                s.concat(l.as_str())
            },
            LiteralType::Hex(l) => {
                proof {
                    reveal_strlit("0x");
                }
                let s = String::from_str("0x");
                s.concat(l.as_str())
            },
        }
    }
}

impl BitRange {
    /// The text of the bit range, as written inside the brackets of a word.
    pub fn to_string(&self) -> (r: String)
        ensures
            r@ == range_text(self@),
    {
        match self {
            BitRange::Single(p) => decimal(*p as usize),
            BitRange::Range(a, b) => {
                let mut s = decimal(*a as usize);
                proof {
                    reveal_strlit("..");
                }
                s.append("..");
                let e = decimal(*b as usize);
                s.append(e.as_str());
                s
            },
            BitRange::WholeWord => String::new(),
            BitRange::Literal(l) => String::from_str(l.as_str()),
        }
    }
}

impl Word {
    /// The text of the word: `index[bits]`.
    pub fn to_string(&self) -> (r: String)
        ensures
            r@ == word_text(self@),
    {
        let mut s = decimal(self.index);
        proof {
            reveal_strlit("[");
            reveal_strlit("]");
        }
        s.append("[");
        let r = self.bit_range.to_string();
        s.append(r.as_str());
        s.append("]");
        s
    }
}

impl Repeat {
    /// The text of the repeat, as written after the `;` of a bit specification.
    pub fn to_string(&self) -> (r: String)
        ensures
            r@ == repeat_text(self@),
        decreases self,
    {
        match self {
            Repeat::NoRepeat => String::new(),
            Repeat::Fixed { number } => decimal(*number),
            Repeat::Dependent { bit_spec, limit } => {
                proof {
                    reveal_strlit("(");
                    reveal_strlit(")<=");
                }
                let mut s = String::from_str("(");
                let inner = bit_spec.to_string();
                s.append(inner.as_str());
                s.append(")<=");
                let l = decimal(*limit);
                s.append(l.as_str());
                s
            },
            Repeat::Variable { limit } => {
                proof {
                    reveal_strlit("<=");
                }
                let s = String::from_str("<=");
                let l = decimal(*limit);
                s.concat(l.as_str())
            },
        }
    }
}

impl BitSpec {
    /// The text of the bit specification in the bit-lang notation.
    pub fn to_string(&self) -> (r: String)
        ensures
            r@ == bit_spec_text(self@),
        decreases self,
    {
        let mut s = self.start.to_string();
        match &self.end {
            Some(w) => {
                proof {
                    reveal_strlit("..");
                }
                s.append("..");
                let t = w.to_string();
                s.append(t.as_str());
            },
            None => {},
        }
        match &self.repeat {
            Repeat::NoRepeat => {},
            r => {
                proof {
                    reveal_strlit(";");
                }
                s.append(";");
                let t = r.to_string();
                s.append(t.as_str());
            },
        }
        s
    }
}

} // verus!
