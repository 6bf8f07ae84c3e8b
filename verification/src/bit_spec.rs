//! The data model of a bit specification: which bits of which words a value
//! occupies, and how often the words repeat.

use vstd::prelude::*;
use vstd::string::*;

verus! {

/// A literal that fixes the state of the bits of a word.
#[derive(Debug, PartialEq, Eq, Clone, Hash, PartialOrd, Ord)]
pub enum LiteralType {
    Hex(String),
    Bin(String),
}

/// The bits of a single word that a specification refers to.
#[derive(Debug, PartialEq, Eq, Clone, Hash, PartialOrd, Ord)]
pub enum BitRange {
    /// A single bit.
    Single(u16),
    /// An inclusive range of bits.
    Range(u16, u16),
    /// All the bits of the word.
    WholeWord,
    /// A literal value, kept as written (with a lower case `0x` or `0b` prefix).
    Literal(String),
}

/// A word index together with the bits used in that word.
#[derive(Debug, PartialEq, Eq, Clone, Hash, PartialOrd, Ord)]
pub struct Word {
    pub index: usize,
    pub bit_range: BitRange,
}

/// The comparison that bounds a dependent or variable repeat.
#[derive(Debug, PartialEq, Copy, Clone)]
pub enum Condition {
    Lt,
    Lte,
}

/// How a word (or word range) repeats.
#[derive(Debug, PartialEq, Eq, Hash, PartialOrd, Ord)]
pub enum Repeat {
    /// A fixed number of repetitions.
    Fixed { number: usize },
    /// A number of repetitions given by another field, with an upper limit.
    Dependent { bit_spec: Box<BitSpec>, limit: usize },
    /// A variable number of repetitions of which only the limit is known.
    Variable { limit: usize },
    /// No repetition.
    NoRepeat,
}

/// A complete bit specification.
#[derive(Debug, Eq, PartialEq, Hash, PartialOrd, Ord)]
pub struct BitSpec {
    /// The word at the start of a word range, or the only word.
    pub start: Word,
    /// The last word of a word range.
    pub end: Option<Word>,
    /// How the word (range) is repeated, if at all.
    pub repeat: Repeat,
}

/// The mathematical model of a [`BitRange`].
pub ghost enum BitRangeV {
    Single(u16),
    Range(u16, u16),
    WholeWord,
    Literal(Seq<char>),
}

/// The mathematical model of a [`Word`].
pub ghost struct WordV {
    pub index: usize,
    pub bit_range: BitRangeV,
}

/// The mathematical model of a [`Repeat`].
pub ghost enum RepeatV {
    Fixed { number: usize },
    Dependent { bit_spec: Box<BitSpecV>, limit: usize },
    Variable { limit: usize },
    NoRepeat,
}

/// The mathematical model of a [`BitSpec`].
pub ghost struct BitSpecV {
    pub start: WordV,
    pub end: Option<WordV>,
    pub repeat: RepeatV,
}

impl View for BitRange {
    type V = BitRangeV;

    open spec fn view(&self) -> BitRangeV {
        match self {
            BitRange::Single(p) => BitRangeV::Single(*p),
            BitRange::Range(a, b) => BitRangeV::Range(*a, *b),
            BitRange::WholeWord => BitRangeV::WholeWord,
            BitRange::Literal(l) => BitRangeV::Literal(l@),
        }
    }
}

impl View for Word {
    type V = WordV;

    open spec fn view(&self) -> WordV {
        WordV { index: self.index, bit_range: self.bit_range@ }
    }
}

/// The model of an optional word.
pub open spec fn opt_word_view(w: Option<Word>) -> Option<WordV> {
    match w {
        Some(w) => Some(w@),
        None => None,
    }
}

/// The model of a repeat.
pub open spec fn repeat_view(r: Repeat) -> RepeatV
    decreases r,
{
    match r {
        Repeat::Fixed { number } => RepeatV::Fixed { number },
        Repeat::Dependent { bit_spec, limit } => RepeatV::Dependent {
            bit_spec: Box::new(bit_spec_view(*bit_spec)),
            limit,
        },
        Repeat::Variable { limit } => RepeatV::Variable { limit },
        Repeat::NoRepeat => RepeatV::NoRepeat,
    }
}

/// The model of a bit specification.
pub open spec fn bit_spec_view(b: BitSpec) -> BitSpecV
    decreases b,
{
    BitSpecV { start: b.start@, end: opt_word_view(b.end), repeat: repeat_view(b.repeat) }
}

impl View for Repeat {
    type V = RepeatV;

    open spec fn view(&self) -> RepeatV {
        repeat_view(*self)
    }
}

impl View for BitSpec {
    type V = BitSpecV;

    open spec fn view(&self) -> BitSpecV {
        bit_spec_view(*self)
    }
}

/// The largest number of repetitions a repeat allows.
pub open spec fn spec_max_repeats(r: RepeatV) -> nat {
    match r {
        RepeatV::NoRepeat => 1,
        RepeatV::Fixed { number } => number as nat,
        RepeatV::Dependent { limit, .. } => limit as nat,
        RepeatV::Variable { limit } => limit as nat,
    }
}

/// The number of consecutive words a single repetition spans.
pub open spec fn spec_word_count(b: BitSpecV) -> int {
    match b.end {
        None => 1,
        Some(e) => e.index - b.start.index + 1,
    }
}

/// The size in bytes of the largest array that can hold the specified bits.
pub open spec fn spec_max_size(b: BitSpecV) -> int {
    spec_word_count(b) * spec_max_repeats(b.repeat)
}

/// Whether the word range of a specification runs forwards, so that its
/// number of words is defined.
pub open spec fn word_range_ordered(b: BitSpecV) -> bool {
    match b.end {
        None => true,
        Some(e) => b.start.index <= e.index && e.index - b.start.index + 1 <= usize::MAX,
    }
}

/// The name of the Rust type suggested for a value with the given bit
/// specification.
pub open spec fn spec_suggested_word_type(b: BitSpecV) -> Seq<char> {
    match b.end {
        None => match b.start.bit_range {
            BitRangeV::Single(_) => seq!['b', 'o', 'o', 'l'],
            _ => seq!['u', '8'],
        },
        Some(_) => {
            let n = spec_word_count(b);
            if n == 2 {
                seq!['u', '1', '6']
            } else if n == 4 {
                seq!['u', '3', '2']
            } else if n == 8 {
                seq!['u', '6', '4']
            } else if n == 16 {
                seq!['u', '1', '2', '8']
            } else {
                seq!['u', 's', 'i', 'z', 'e']
            }
        },
    }
}

/// The number of bits of a Rust type that holds a value of fixed width, by
/// its name; `None` for `usize`, whose width is the machine's, and for any
/// other name.
pub open spec fn type_bits(t: Seq<char>) -> Option<int> {
    if t == seq!['b', 'o', 'o', 'l'] {
        Some(1)
    } else if t == seq!['u', '8'] {
        Some(8)
    } else if t == seq!['u', '1', '6'] {
        Some(16)
    } else if t == seq!['u', '3', '2'] {
        Some(32)
    } else if t == seq!['u', '6', '4'] {
        Some(64)
    } else if t == seq!['u', '1', '2', '8'] {
        Some(128)
    } else {
        None
    }
}

/// Law: the suggested type holds the bits it is for. Within one word, a
/// single bit is a `bool` and any other bits a byte. Over a range of `n`
/// words of 8 bits, the type is the unsigned integer of exactly `8 * n`
/// bits where there is one (16, 32, 64 or 128), and `usize` otherwise;
/// every fixed-width type suggested holds all `8 * n` bits.
pub proof fn law_suggested_type_holds_the_bits(b: BitSpecV)
    requires
        word_range_ordered(b),
    ensures
        b.end is None ==> (b.start.bit_range is Single ==> type_bits(spec_suggested_word_type(b))
            == Some(1int)) && (!(b.start.bit_range is Single) ==> type_bits(
            spec_suggested_word_type(b),
        ) == Some(8int)),
        b.end is Some ==> (type_bits(spec_suggested_word_type(b)) matches Some(w) ==> w >= 8
            * spec_word_count(b)),
        b.end is Some ==> (8 * spec_word_count(b) == 16 || 8 * spec_word_count(b) == 32 || 8
            * spec_word_count(b) == 64 || 8 * spec_word_count(b) == 128 ==> type_bits(
            spec_suggested_word_type(b),
        ) == Some(8 * spec_word_count(b))),
        b.end is Some ==> (!(8 * spec_word_count(b) == 16 || 8 * spec_word_count(b) == 32 || 8
            * spec_word_count(b) == 64 || 8 * spec_word_count(b) == 128) ==> spec_suggested_word_type(
            b,
        ) == seq!['u', 's', 'i', 'z', 'e']),
{
    let t = spec_suggested_word_type(b);
    assert(seq!['u', 's', 'i', 'z', 'e'] != seq!['b', 'o', 'o', 'l']);
    assert(seq!['u', 's', 'i', 'z', 'e'] != seq!['u', '1', '2', '8']);
    assert(seq!['u', '1', '6'] != seq!['u', '8']);
    assert(seq!['u', '3', '2'] != seq!['u', '8']);
    assert(seq!['u', '3', '2'] != seq!['u', '1', '6']);
    assert(seq!['u', '6', '4'] != seq!['u', '8']);
    assert(seq!['u', '6', '4'] != seq!['u', '1', '6']);
    assert(seq!['u', '6', '4'] != seq!['u', '3', '2']);
    assert(seq!['u', '1', '2', '8'] != seq!['b', 'o', 'o', 'l']);
    assert(seq!['u', '1', '2', '8'][2] != seq!['u', '1', '6'][2]);
    assert(seq!['u', '8'] != seq!['b', 'o', 'o', 'l']);
}

impl Repeat {
    /// Get the max number of repeats specified.
    pub fn max_repeats(&self) -> (r: usize)
        ensures
            r == spec_max_repeats(self@),
    {
        match self {
            Repeat::NoRepeat => 1,
            Repeat::Fixed { number } => *number,
            Repeat::Dependent { limit, .. } => *limit,
            Repeat::Variable { limit } => *limit,
        }
    }
}

impl BitSpec {
    /// Get the max size in bytes of an array that could contain the bit
    /// specification: the number of words of one repetition times the
    /// largest number of repetitions.
    pub fn max_size(&self) -> (r: usize)
        requires
            word_range_ordered(self@),
            spec_max_size(self@) <= usize::MAX,
        ensures
            r == spec_max_size(self@),
    {
        let n_words: usize = match &self.end {
            None => 1,
            Some(end) => end.index - self.start.index + 1,
        };
        let repeats = self.repeat.max_repeats();
        n_words * repeats
    }

    /// Suggest a type for a variable to hold the value specified by the bit
    /// spec.
    pub fn suggested_word_type(&self) -> (r: String)
        requires
            word_range_ordered(self@),
        ensures
            r@ == spec_suggested_word_type(self@),
    {
        match &self.end {
            None => match &self.start.bit_range {
                BitRange::Single(_) => {
                    proof {
                        reveal_strlit("bool");
                    }
                    String::from_str("bool")
                },
                _ => {
                    proof {
                        reveal_strlit("u8");
                    }
                    String::from_str("u8")
                },
            },
            Some(end) => {
                let n: usize = end.index - self.start.index + 1;
                if n == 2 {
                    proof {
                        reveal_strlit("u16");
                    }
                    String::from_str("u16")
                } else if n == 4 {
                    proof {
                        reveal_strlit("u32");
                    }
                    String::from_str("u32")
                } else if n == 8 {
                    proof {
                        reveal_strlit("u64");
                    }
                    String::from_str("u64")
                } else if n == 16 {
                    proof {
                        reveal_strlit("u128");
                    }
                    String::from_str("u128")
                } else {
                    proof {
                        reveal_strlit("usize");
                    }
                    String::from_str("usize")
                }
            },
        }
    }
}

} // verus!
