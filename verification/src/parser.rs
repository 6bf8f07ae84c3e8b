//! The bit-lang grammar, written as mathematical functions over the
//! characters of a specification, and an executable parser proved to follow
//! it. Each production consumes a prefix of the input from a position and,
//! on success, yields a value and the position after it. Alternatives are
//! tried in order and the first that succeeds wins.

use vstd::prelude::*;
use vstd::string::*;

use crate::bit_spec::{
    opt_word_view, BitRange, BitRangeV, BitSpec, BitSpecV, Condition, Repeat, RepeatV, Word, WordV,
};

verus! {

/// Whether the character at position `i` exists and is `c`.
pub open spec fn at(s: Seq<char>, i: int, c: char) -> bool {
    0 <= i < s.len() && s[i] == c
}

/// Decimal digits (`0` to `9`).
pub open spec fn is_digit(c: char) -> bool {
    '0' <= c && c <= '9'
}

/// The value of a decimal digit.
pub open spec fn digit_value(c: char) -> nat {
    (c as int - '0' as int) as nat
}

/// The position after the run of decimal digits that starts at `i`.
pub open spec fn digits_end(s: Seq<char>, i: int) -> int
    decreases s.len() - i,
{
    if 0 <= i < s.len() && is_digit(s[i]) {
        digits_end(s, i + 1)
    } else {
        i
    }
}

/// The number that the digits in `s[i..j]` spell in decimal.
pub open spec fn digits_value(s: Seq<char>, i: int, j: int) -> nat
    decreases j - i,
{
    if j <= i {
        0
    } else {
        10 * digits_value(s, i, j - 1) + digit_value(s[j - 1])
    }
}

/// `index`: a run of at least one decimal digit whose value fits in a `u16`.
pub open spec fn spec_index(s: Seq<char>, i: int) -> Option<(u16, int)> {
    let j = digits_end(s, i);
    if j == i || digits_value(s, i, j) > u16::MAX {
        None
    } else {
        Some((digits_value(s, i, j) as u16, j))
    }
}

/// `single_bit`: an index, as a single bit.
pub open spec fn spec_single_bit(s: Seq<char>, i: int) -> Option<(BitRangeV, int)> {
    match spec_index(s, i) {
        Some((p, j)) => Some((BitRangeV::Single(p), j)),
        None => None,
    }
}

/// `range`: two indexes separated by `..`.
pub open spec fn spec_range(s: Seq<char>, i: int) -> Option<(BitRangeV, int)> {
    match spec_index(s, i) {
        Some((a, j)) => if at(s, j, '.') && at(s, j + 1, '.') {
            match spec_index(s, j + 2) {
                Some((b, k)) => Some((BitRangeV::Range(a, b), k)),
                None => None,
            }
        } else {
            None
        },
        None => None,
    }
}

/// `bit_range`: a range, or else a single bit.
pub open spec fn spec_bit_range(s: Seq<char>, i: int) -> Option<(BitRangeV, int)> {
    match spec_range(s, i) {
        Some(r) => Some(r),
        None => spec_single_bit(s, i),
    }
}

/// The optional word index in front of `[`: its value (0 when absent) and
/// the position after it.
pub open spec fn spec_opt_index(s: Seq<char>, i: int) -> (usize, int) {
    match spec_index(s, i) {
        Some((v, j)) => (v as usize, j),
        None => (0usize, i),
    }
}

/// `fully_qualified_word`: an optional index, `[`, an optional bit range
/// (the whole word when absent) and `]`.
pub open spec fn spec_fully_qualified_word(s: Seq<char>, i: int) -> Option<(WordV, int)> {
    let (index, j) = spec_opt_index(s, i);
    if at(s, j, '[') {
        let (bit_range, k) = match spec_bit_range(s, j + 1) {
            Some((r, k)) => (r, k),
            None => (BitRangeV::WholeWord, j + 1),
        };
        if at(s, k, ']') {
            Some((WordV { index, bit_range }, k + 1))
        } else {
            None
        }
    } else {
        None
    }
}

/// `short_range`: two indexes separated by a single `.`, the short form of a
/// range of bits in word 0 (`3.6` is `[3..6]`).
pub open spec fn spec_short_range(s: Seq<char>, i: int) -> Option<(BitRangeV, int)> {
    match spec_index(s, i) {
        Some((a, j)) => if at(s, j, '.') {
            match spec_index(s, j + 1) {
                Some((b, k)) => Some((BitRangeV::Range(a, b), k)),
                None => None,
            }
        } else {
            None
        },
        None => None,
    }
}

/// A bare bit range: a range, or else its short form, or else a single bit.
pub open spec fn spec_bare_bit_range(s: Seq<char>, i: int) -> Option<(BitRangeV, int)> {
    match spec_range(s, i) {
        Some(r) => Some(r),
        None => match spec_short_range(s, i) {
            Some(r) => Some(r),
            None => spec_single_bit(s, i),
        },
    }
}

/// `bit_range_as_word`: a bare bit range, in word 0.
pub open spec fn spec_bit_range_as_word(s: Seq<char>, i: int) -> Option<(WordV, int)> {
    match spec_bare_bit_range(s, i) {
        Some((r, j)) => Some((WordV { index: 0, bit_range: r }, j)),
        None => None,
    }
}

/// Characters of a hexadecimal literal: hexadecimal digits and `_`.
pub open spec fn is_hex_char(c: char) -> bool {
    is_digit(c) || ('a' <= c && c <= 'f') || ('A' <= c && c <= 'F') || c == '_'
}

/// The position after the run of hexadecimal literal characters from `i`.
pub open spec fn hex_end(s: Seq<char>, i: int) -> int
    decreases s.len() - i,
{
    if 0 <= i < s.len() && is_hex_char(s[i]) {
        hex_end(s, i + 1)
    } else {
        i
    }
}

/// Binary digits (`0` and `1`).
pub open spec fn is_bin(c: char) -> bool {
    c == '0' || c == '1'
}

/// The position after the run of binary digits from `i`.
pub open spec fn bits_end(s: Seq<char>, i: int) -> int
    decreases s.len() - i,
{
    if 0 <= i < s.len() && is_bin(s[i]) {
        bits_end(s, i + 1)
    } else {
        i
    }
}

/// The run of binary digits from `i` ends at the same place or after it,
/// and not past the end of the input.
pub proof fn lemma_bits_end(s: Seq<char>, i: int)
    requires
        0 <= i <= s.len(),
    ensures
        i <= bits_end(s, i) <= s.len(),
        i < s.len() && is_bin(s[i]) ==> i < bits_end(s, i),
    decreases s.len() - i,
{
    if i < s.len() && is_bin(s[i]) {
        lemma_bits_end(s, i + 1);
    }
}

/// The end of a binary number whose first run of digits ends at `p`: more
/// runs of digits follow, each after one `_`.
pub open spec fn binary_end(s: Seq<char>, p: int) -> int
    decreases s.len() - p,
{
    if 0 <= p && at(s, p, '_') && p + 1 < s.len() && is_bin(s[p + 1]) {
        proof {
            lemma_bits_end(s, p + 1);
        }
        binary_end(s, bits_end(s, p + 1))
    } else {
        p
    }
}

/// `hexadecimal_literal`: `0x` or `0X` and at least one hexadecimal literal
/// character; the literal is kept with a `0x` prefix.
pub open spec fn spec_hexadecimal_literal(s: Seq<char>, i: int) -> Option<(Seq<char>, int)> {
    if at(s, i, '0') && (at(s, i + 1, 'x') || at(s, i + 1, 'X')) {
        let k = hex_end(s, i + 2);
        if k > i + 2 {
            Some((seq!['0', 'x'] + s.subrange(i + 2, k), k))
        } else {
            None
        }
    } else {
        None
    }
}

/// `separater`: the character `_`.
pub open spec fn spec_separater(s: Seq<char>, i: int) -> Option<(char, int)> {
    if at(s, i, '_') {
        Some(('_', i + 1))
    } else {
        None
    }
}

/// `boolean_char`: the character `0` or `1`.
pub open spec fn spec_boolean_char(s: Seq<char>, i: int) -> Option<(char, int)> {
    if 0 <= i < s.len() && is_bin(s[i]) {
        Some((s[i], i + 1))
    } else {
        None
    }
}

/// `binary`: binary digits, where single `_` may separate runs of digits.
pub open spec fn spec_binary(s: Seq<char>, i: int) -> Option<(Seq<char>, int)> {
    let j = bits_end(s, i);
    if j > i {
        let k = binary_end(s, j);
        Some((s.subrange(i, k), k))
    } else {
        None
    }
}

/// `binary_literal`: `0b` or `0B` and a binary number; the literal is kept
/// with a `0b` prefix.
pub open spec fn spec_binary_literal(s: Seq<char>, i: int) -> Option<(Seq<char>, int)> {
    if at(s, i, '0') && (at(s, i + 1, 'b') || at(s, i + 1, 'B')) {
        match spec_binary(s, i + 2) {
            Some((b, k)) => Some((seq!['0', 'b'] + b, k)),
            None => None,
        }
    } else {
        None
    }
}

/// `literal`: a hexadecimal literal, or else a binary literal.
pub open spec fn spec_literal(s: Seq<char>, i: int) -> Option<(Seq<char>, int)> {
    match spec_hexadecimal_literal(s, i) {
        Some(r) => Some(r),
        None => spec_binary_literal(s, i),
    }
}

/// `literal_word`: an optional index, `[`, a literal and `]`.
pub open spec fn spec_literal_word(s: Seq<char>, i: int) -> Option<(WordV, int)> {
    let (index, j) = spec_opt_index(s, i);
    if at(s, j, '[') {
        match spec_literal(s, j + 1) {
            Some((l, k)) => if at(s, k, ']') {
                Some((WordV { index, bit_range: BitRangeV::Literal(l) }, k + 1))
            } else {
                None
            },
            None => None,
        }
    } else {
        None
    }
}

/// `word`: a literal word, or else a fully qualified word, or else a bare
/// bit range.
pub open spec fn spec_word(s: Seq<char>, i: int) -> Option<(WordV, int)> {
    match spec_literal_word(s, i) {
        Some(r) => Some(r),
        None => match spec_fully_qualified_word(s, i) {
            Some(r) => Some(r),
            None => spec_bit_range_as_word(s, i),
        },
    }
}

/// `condition`: `<=` or else `<`.
pub open spec fn spec_condition(s: Seq<char>, i: int) -> Option<(Condition, int)> {
    if at(s, i, '<') && at(s, i + 1, '=') {
        Some((Condition::Lte, i + 2))
    } else if at(s, i, '<') {
        Some((Condition::Lt, i + 1))
    } else {
        None
    }
}

/// `fixed_repeat`: an index, as the number of repetitions.
pub open spec fn spec_fixed_repeat(s: Seq<char>, i: int) -> Option<(RepeatV, int)> {
    match spec_index(s, i) {
        Some((n, j)) => Some((RepeatV::Fixed { number: n as usize }, j)),
        None => None,
    }
}

/// The outcome of a production that can also fail fatally: a limit written
/// as `<0` has no largest value below it, and the parser stops there
/// (arithmetic underflow) rather than backtrack.
pub ghost enum Scan<T> {
    Found(T, int),
    Miss,
    Underflow,
}

/// The largest count a condition and a written limit allow, or `None` for
/// `<0`.
pub open spec fn adjusted_limit(c: Condition, limit: u16) -> Option<usize> {
    match c {
        Condition::Lte => Some(limit as usize),
        Condition::Lt => if limit == 0 {
            None
        } else {
            Some((limit - 1) as usize)
        },
    }
}

/// `variable_repeat`: a condition and a limit.
pub open spec fn spec_variable_repeat(s: Seq<char>, i: int) -> Scan<RepeatV> {
    match spec_condition(s, i) {
        Some((c, j)) => match spec_index(s, j) {
            Some((l, k)) => match adjusted_limit(c, l) {
                Some(limit) => Scan::Found(RepeatV::Variable { limit }, k),
                None => Scan::Underflow,
            },
            None => Scan::Miss,
        },
        None => Scan::Miss,
    }
}

/// `dependent_repeat` at `i`, given the outcome `inner` of the bit
/// specification that follows the `(` at `i`: the bracketed bit
/// specification, a condition and a limit.
pub open spec fn dependent_repeat_after(s: Seq<char>, i: int, inner: Scan<BitSpecV>) -> Scan<
    RepeatV,
> {
    if at(s, i, '(') {
        match inner {
            Scan::Found(b, j) => if at(s, j, ')') {
                match spec_condition(s, j + 1) {
                    Some((c, k)) => match spec_index(s, k) {
                        Some((l, m)) => match adjusted_limit(c, l) {
                            Some(limit) => Scan::Found(
                                RepeatV::Dependent { bit_spec: Box::new(b), limit },
                                m,
                            ),
                            None => Scan::Underflow,
                        },
                        None => Scan::Miss,
                    },
                    None => Scan::Miss,
                }
            } else {
                Scan::Miss
            },
            Scan::Miss => Scan::Miss,
            Scan::Underflow => Scan::Underflow,
        }
    } else {
        Scan::Miss
    }
}

/// `repeat` at `i`, given the outcome `inner` of the bit specification that
/// follows `;(` at `i`: `;` and then a dependent repeat, or else a variable
/// repeat, or else a fixed repeat.
pub open spec fn repeat_after(s: Seq<char>, i: int, inner: Scan<BitSpecV>) -> Scan<RepeatV> {
    if at(s, i, ';') {
        match dependent_repeat_after(s, i + 1, inner) {
            Scan::Miss => match spec_variable_repeat(s, i + 1) {
                Scan::Miss => match spec_fixed_repeat(s, i + 1) {
                    Some((r, j)) => Scan::Found(r, j),
                    None => Scan::Miss,
                },
                other => other,
            },
            other => other,
        }
    } else {
        Scan::Miss
    }
}

/// The optional `..` and end word after the start word: the end word, if
/// any, and the position after it.
pub open spec fn spec_opt_end(s: Seq<char>, j: int) -> (Option<WordV>, int) {
    if at(s, j, '.') && at(s, j + 1, '.') {
        match spec_word(s, j + 2) {
            Some((w, k)) => (Some(w), k),
            None => (None, j),
        }
    } else {
        (None, j)
    }
}

/// `bit_spec`: a word, optionally `..` and an end word, and optionally a
/// repeat (none when absent).
pub open spec fn spec_bit_spec(s: Seq<char>, i: int) -> Scan<BitSpecV>
    decreases s.len() - i,
{
    match spec_word(s, i) {
        Some((start, j)) => {
            proof {
                lemma_word_advances(s, i);
                lemma_opt_end_advances(s, j);
            }
            let (end, p) = spec_opt_end(s, j);
            let inner = if at(s, p, ';') && at(s, p + 1, '(') {
                spec_bit_spec(s, p + 2)
            } else {
                Scan::Miss
            };
            match repeat_after(s, p, inner) {
                Scan::Found(repeat, m) => Scan::Found(BitSpecV { start, end, repeat }, m),
                Scan::Miss => Scan::Found(BitSpecV { start, end, repeat: RepeatV::NoRepeat }, p),
                Scan::Underflow => Scan::Underflow,
            }
        },
        None => Scan::Miss,
    }
}

/// The inner bit specification of a repeat at `i`, as the grammar reads it.
pub open spec fn inner_bit_spec(s: Seq<char>, i: int) -> Scan<BitSpecV> {
    if 0 <= i && at(s, i, ';') && at(s, i + 1, '(') {
        spec_bit_spec(s, i + 2)
    } else {
        Scan::Miss
    }
}

/// `repeat`: `;` and then a dependent, variable or fixed repeat.
pub open spec fn spec_repeat(s: Seq<char>, i: int) -> Scan<RepeatV> {
    repeat_after(s, i, inner_bit_spec(s, i))
}

/// `dependent_bit_spec`: a bit specification between `(` and `)`.
pub open spec fn spec_dependent_bit_spec(s: Seq<char>, i: int) -> Scan<BitSpecV> {
    if 0 <= i && at(s, i, '(') {
        match spec_bit_spec(s, i + 1) {
            Scan::Found(b, j) => if at(s, j, ')') {
                Scan::Found(b, j + 1)
            } else {
                Scan::Miss
            },
            other => other,
        }
    } else {
        Scan::Miss
    }
}

/// `dependent_repeat`: a bracketed bit specification, a condition and a
/// limit.
pub open spec fn spec_dependent_repeat(s: Seq<char>, i: int) -> Scan<RepeatV> {
    let inner = if 0 <= i && at(s, i, '(') {
        spec_bit_spec(s, i + 1)
    } else {
        Scan::Miss
    };
    dependent_repeat_after(s, i, inner)
}

/// A run of digits ends at or after its start, within the input.
pub proof fn lemma_digits_end(s: Seq<char>, i: int)
    requires
        0 <= i <= s.len(),
    ensures
        i <= digits_end(s, i) <= s.len(),
    decreases s.len() - i,
{
    if i < s.len() && is_digit(s[i]) {
        lemma_digits_end(s, i + 1);
    }
}

/// A run of hexadecimal literal characters ends at or after its start,
/// within the input.
pub proof fn lemma_hex_end(s: Seq<char>, i: int)
    requires
        0 <= i <= s.len(),
    ensures
        i <= hex_end(s, i) <= s.len(),
    decreases s.len() - i,
{
    if i < s.len() && is_hex_char(s[i]) {
        lemma_hex_end(s, i + 1);
    }
}

/// A binary number ends at or after the end of its first run, within the
/// input.
pub proof fn lemma_binary_end(s: Seq<char>, p: int)
    requires
        0 <= p <= s.len(),
    ensures
        p <= binary_end(s, p) <= s.len(),
    decreases s.len() - p,
{
    if at(s, p, '_') && p + 1 < s.len() && is_bin(s[p + 1]) {
        lemma_bits_end(s, p + 1);
        lemma_binary_end(s, bits_end(s, p + 1));
    }
}

/// Where an index is found, it is followed by a position within the input.
pub proof fn lemma_index_advances(s: Seq<char>, i: int)
    requires
        0 <= i <= s.len(),
    ensures
        spec_index(s, i) matches Some((v, j)) ==> i < j <= s.len(),
        i <= spec_opt_index(s, i).1 <= s.len(),
{
    lemma_digits_end(s, i);
}

/// A found bit range consumes at least one character.
pub proof fn lemma_bit_range_advances(s: Seq<char>, i: int)
    requires
        0 <= i <= s.len(),
    ensures
        spec_bit_range(s, i) matches Some((r, j)) ==> i < j <= s.len(),
{
    lemma_index_advances(s, i);
    if let Some((a, j)) = spec_index(s, i) {
        if j + 2 <= s.len() {
            lemma_index_advances(s, j + 2);
        }
    }
}

/// A found literal consumes at least one character.
pub proof fn lemma_literal_advances(s: Seq<char>, i: int)
    requires
        0 <= i <= s.len(),
    ensures
        spec_literal(s, i) matches Some((l, j)) ==> i < j <= s.len(),
{
    if at(s, i, '0') && i + 2 <= s.len() {
        lemma_hex_end(s, i + 2);
        lemma_bits_end(s, i + 2);
        lemma_binary_end(s, bits_end(s, i + 2));
    }
}

/// A found word consumes at least one character.
pub proof fn lemma_word_advances(s: Seq<char>, i: int)
    requires
        0 <= i <= s.len(),
    ensures
        spec_word(s, i) matches Some((w, j)) ==> i < j <= s.len(),
{
    lemma_index_advances(s, i);
    let j = spec_opt_index(s, i).1;
    if j + 1 <= s.len() {
        lemma_literal_advances(s, j + 1);
        lemma_bit_range_advances(s, j + 1);
    }
    lemma_bit_range_advances(s, i);
    if let Some((a, k)) = spec_index(s, i) {
        if k + 1 <= s.len() {
            lemma_index_advances(s, k + 1);
        }
    }
}

/// The optional end word leaves the position within the input and never
/// moves it backwards.
pub proof fn lemma_opt_end_advances(s: Seq<char>, j: int)
    requires
        0 <= j <= s.len(),
    ensures
        j <= spec_opt_end(s, j).1 <= s.len(),
{
    if at(s, j, '.') && at(s, j + 1, '.') {
        lemma_word_advances(s, j + 2);
    }
}

/// The digits of a number only add to its value as more follow.
pub proof fn lemma_digits_value_monotone(s: Seq<char>, i: int, k: int, j: int)
    requires
        i <= k <= j,
    ensures
        digits_value(s, i, k) <= digits_value(s, i, j),
    decreases j - k,
{
    if k < j {
        lemma_digits_value_monotone(s, i, k, j - 1);
    }
}

/// Whether an executable result and a grammar outcome agree, through the
/// view of the value.
pub open spec fn found_as<T: View>(r: Option<(T, usize)>, m: Option<(T::V, int)>) -> bool {
    match r {
        Some((v, j)) => m == Some((v@, j as int)),
        None => m is None,
    }
}

/// The outcome of a production of the parser that can fail fatally.
pub enum Parsed<T> {
    Found(T, usize),
    Miss,
    Underflow,
}

/// Whether an executable outcome and a grammar outcome agree.
pub open spec fn parsed_as<T: View>(r: Parsed<T>, m: Scan<T::V>) -> bool {
    match r {
        Parsed::Found(v, j) => m == Scan::Found(v@, j as int),
        Parsed::Miss => m is Miss,
        Parsed::Underflow => m is Underflow,
    }
}

impl View for Condition {
    type V = Condition;

    open spec fn view(&self) -> Condition {
        *self
    }
}

/// The character at position `i`, if there is one.
fn char_at(s: &str, n: usize, i: usize) -> (r: Option<char>)
    requires
        n == s@.len(),
    ensures
        match r {
            Some(c) => i < s@.len() && s@[i as int] == c,
            None => i >= s@.len(),
        },
{
    if i < n {
        Some(s.get_char(i))
    } else {
        None
    }
}

/// Whether the character at position `i` is `c`.
fn is_at(s: &str, n: usize, i: usize, c: char) -> (r: bool)
    requires
        n == s@.len(),
    ensures
        r == at(s@, i as int, c),
{
    match char_at(s, n, i) {
        Some(d) => d == c,
        None => false,
    }
}

/// The value of the decimal digit at position `i`, if there is one.
fn digit_at(s: &str, n: usize, i: usize) -> (r: Option<u32>)
    requires
        n == s@.len(),
    ensures
        match r {
            Some(d) => i < s@.len() && is_digit(s@[i as int]) && d == digit_value(s@[i as int]),
            None => !(i < s@.len() && is_digit(s@[i as int])),
        },
{
    match char_at(s, n, i) {
        Some(c) => if '0' <= c && c <= '9' {
            Some((c as u32) - ('0' as u32))
        } else {
            None
        },
        None => None,
    }
}

/// Reads the rest of a number whose digits `s[i..k]` are worth `value`.
fn scan_number(s: &str, n: usize, i: usize, k: usize, value: u32) -> (r: Option<(u16, usize)>)
    requires
        n == s@.len(),
        i <= k <= n,
        value == digits_value(s@, i as int, k as int),
        value <= u16::MAX,
        digits_end(s@, i as int) == digits_end(s@, k as int),
    ensures
        ({
            let j = digits_end(s@, i as int);
            if digits_value(s@, i as int, j) > u16::MAX {
                r is None
            } else {
                r == Some((digits_value(s@, i as int, j) as u16, j as usize))
            }
        }),
    decreases n - k,
{
    match digit_at(s, n, k) {
        None => Some((value as u16, k)),
        Some(d) => {
            let v = value * 10 + d;
            assert(v == digits_value(s@, i as int, k + 1));
            if v > 65535 {
                proof {
                    lemma_digits_end(s@, (k + 1) as int);
                    lemma_digits_value_monotone(
                        s@,
                        i as int,
                        k + 1,
                        digits_end(s@, (k + 1) as int),
                    );
                }
                None
            } else {
                scan_number(s, n, i, k + 1, v)
            }
        },
    }
}

/// `index` at position `i`.
fn scan_index(s: &str, n: usize, i: usize) -> (r: Option<(u16, usize)>)
    requires
        n == s@.len(),
        i <= n,
    ensures
        found_as(r, spec_index(s@, i as int)),
        r matches Some((_, j)) ==> j <= n,
{
    match digit_at(s, n, i) {
        None => None,
        Some(_) => {
            proof {
                lemma_digits_end(s@, i + 1);
            }
            scan_number(s, n, i, i, 0)
        },
    }
}

/// `bit_range` at position `i`: a range, or else a single bit.
fn scan_bit_range(s: &str, n: usize, i: usize) -> (r: Option<(BitRange, usize)>)
    requires
        n == s@.len(),
        i <= n,
    ensures
        found_as(r, spec_bit_range(s@, i as int)),
        r matches Some((_, j)) ==> i < j <= n,
{
    proof {
        lemma_bit_range_advances(s@, i as int);
    }
    match scan_range(s, n, i) {
        Some(r) => Some(r),
        None => scan_single_bit(s, n, i),
    }
}

/// `single_bit` at position `i`.
fn scan_single_bit(s: &str, n: usize, i: usize) -> (r: Option<(BitRange, usize)>)
    requires
        n == s@.len(),
        i <= n,
    ensures
        found_as(r, spec_single_bit(s@, i as int)),
        r matches Some((_, j)) ==> j <= n,
{
    match scan_index(s, n, i) {
        Some((p, j)) => Some((BitRange::Single(p), j)),
        None => None,
    }
}

/// `range` at position `i`.
fn scan_range(s: &str, n: usize, i: usize) -> (r: Option<(BitRange, usize)>)
    requires
        n == s@.len(),
        i <= n,
    ensures
        found_as(r, spec_range(s@, i as int)),
        r matches Some((_, j)) ==> j <= n,
{
    proof {
        lemma_index_advances(s@, i as int);
    }
    match scan_index(s, n, i) {
        Some((a, j)) => if is_at(s, n, j, '.') && is_at(s, n, j + 1, '.') {
            match scan_index(s, n, j + 2) {
                Some((b, k)) => Some((BitRange::Range(a, b), k)),
                None => None,
            }
        } else {
            None
        },
        None => None,
    }
}

/// The optional index in front of `[` at position `i`.
fn scan_opt_index(s: &str, n: usize, i: usize) -> (r: (usize, usize))
    requires
        n == s@.len(),
        i <= n,
    ensures
        r.0 == spec_opt_index(s@, i as int).0,
        r.1 == spec_opt_index(s@, i as int).1,
        i <= r.1 <= n,
{
    proof {
        lemma_index_advances(s@, i as int);
    }
    match scan_index(s, n, i) {
        Some((v, j)) => (v as usize, j),
        None => (0, i),
    }
}

/// `fully_qualified_word` at position `i`.
fn scan_fully_qualified_word(s: &str, n: usize, i: usize) -> (r: Option<(Word, usize)>)
    requires
        n == s@.len(),
        i <= n,
    ensures
        found_as(r, spec_fully_qualified_word(s@, i as int)),
        r matches Some((_, j)) ==> j <= n,
{
    let (index, j) = scan_opt_index(s, n, i);
    if is_at(s, n, j, '[') {
        let (bit_range, k) = match scan_bit_range(s, n, j + 1) {
            Some((r, k)) => (r, k),
            None => (BitRange::WholeWord, j + 1),
        };
        if is_at(s, n, k, ']') {
            Some((Word { index, bit_range }, k + 1))
        } else {
            None
        }
    } else {
        None
    }
}

/// `bit_range_as_word` at position `i`.
fn scan_bit_range_as_word(s: &str, n: usize, i: usize) -> (r: Option<(Word, usize)>)
    requires
        n == s@.len(),
        i <= n,
    ensures
        found_as(r, spec_bit_range_as_word(s@, i as int)),
        r matches Some((_, j)) ==> j <= n,
{
    let found = match scan_range(s, n, i) {
        Some(r) => Some(r),
        None => match scan_short_range(s, n, i) {
            Some(r) => Some(r),
            None => scan_single_bit(s, n, i),
        },
    };
    match found {
        Some((r, j)) => Some((Word { index: 0, bit_range: r }, j)),
        None => None,
    }
}

/// `short_range` at position `i`.
fn scan_short_range(s: &str, n: usize, i: usize) -> (r: Option<(BitRange, usize)>)
    requires
        n == s@.len(),
        i <= n,
    ensures
        found_as(r, spec_short_range(s@, i as int)),
        r matches Some((_, j)) ==> j <= n,
{
    proof {
        lemma_index_advances(s@, i as int);
    }
    match scan_index(s, n, i) {
        Some((a, j)) => if is_at(s, n, j, '.') {
            match scan_index(s, n, j + 1) {
                Some((b, k)) => Some((BitRange::Range(a, b), k)),
                None => None,
            }
        } else {
            None
        },
        None => None,
    }
}

/// The end of the run of hexadecimal literal characters from `k`.
fn scan_hex_end(s: &str, n: usize, k: usize) -> (r: usize)
    requires
        n == s@.len(),
        k <= n,
    ensures
        r == hex_end(s@, k as int),
    decreases n - k,
{
    match char_at(s, n, k) {
        Some(c) => if ('0' <= c && c <= '9') || ('a' <= c && c <= 'f') || ('A' <= c && c <= 'F')
            || c == '_' {
            scan_hex_end(s, n, k + 1)
        } else {
            k
        },
        None => k,
    }
}

/// Whether the character at position `i` is a binary digit.
fn bin_at(s: &str, n: usize, i: usize) -> (r: bool)
    requires
        n == s@.len(),
    ensures
        r == (i < s@.len() && is_bin(s@[i as int])),
{
    match char_at(s, n, i) {
        Some(c) => c == '0' || c == '1',
        None => false,
    }
}

/// The end of the run of binary digits from `k`.
fn scan_bits_end(s: &str, n: usize, k: usize) -> (r: usize)
    requires
        n == s@.len(),
        k <= n,
    ensures
        r == bits_end(s@, k as int),
    decreases n - k,
{
    if bin_at(s, n, k) {
        scan_bits_end(s, n, k + 1)
    } else {
        k
    }
}

/// The end of a binary number whose first run of digits ends at `p`.
fn scan_binary_end(s: &str, n: usize, p: usize) -> (r: usize)
    requires
        n == s@.len(),
        p <= n,
    ensures
        r == binary_end(s@, p as int),
    decreases n - p,
{
    if is_at(s, n, p, '_') && bin_at(s, n, p + 1) {
        proof {
            lemma_bits_end(s@, p + 1);
        }
        let q = scan_bits_end(s, n, p + 1);
        scan_binary_end(s, n, q)
    } else {
        p
    }
}

/// `hexadecimal_literal` at position `i`.
fn scan_hexadecimal_literal(s: &str, n: usize, i: usize) -> (r: Option<(String, usize)>)
    requires
        n == s@.len(),
        i <= n,
    ensures
        found_as(r, spec_hexadecimal_literal(s@, i as int)),
        r matches Some((_, j)) ==> j <= n,
{
    if is_at(s, n, i, '0') && (is_at(s, n, i + 1, 'x') || is_at(s, n, i + 1, 'X')) {
        let k = scan_hex_end(s, n, i + 2);
        if k > i + 2 {
            proof {
                lemma_hex_end(s@, i + 2);
                reveal_strlit("0x");
            }
            let digits = s.substring_char(i + 2, k);
            let lit = String::from_str("0x").concat(digits);
            assert(lit@ =~= seq!['0', 'x'] + s@.subrange(i + 2, k as int));
            Some((lit, k))
        } else {
            None
        }
    } else {
        None
    }
}

/// `binary` at position `i`.
fn scan_binary(s: &str, n: usize, i: usize) -> (r: Option<(String, usize)>)
    requires
        n == s@.len(),
        i <= n,
    ensures
        found_as(r, spec_binary(s@, i as int)),
        r matches Some((_, j)) ==> j <= n,
{
    let j = scan_bits_end(s, n, i);
    if j > i {
        proof {
            lemma_bits_end(s@, i as int);
            lemma_binary_end(s@, j as int);
        }
        let k = scan_binary_end(s, n, j);
        let b = s.substring_char(i, k);
        Some((String::from_str(b), k))
    } else {
        None
    }
}

/// `binary_literal` at position `i`.
fn scan_binary_literal(s: &str, n: usize, i: usize) -> (r: Option<(String, usize)>)
    requires
        n == s@.len(),
        i <= n,
    ensures
        found_as(r, spec_binary_literal(s@, i as int)),
        r matches Some((_, j)) ==> j <= n,
{
    if is_at(s, n, i, '0') && (is_at(s, n, i + 1, 'b') || is_at(s, n, i + 1, 'B')) {
        match scan_binary(s, n, i + 2) {
            Some((b, k)) => {
                proof {
                    reveal_strlit("0b");
                }
                let lit = String::from_str("0b").concat(b.as_str());
                assert(lit@ =~= seq!['0', 'b'] + b@);
                Some((lit, k))
            },
            None => None,
        }
    } else {
        None
    }
}

/// `literal` at position `i`: hexadecimal, or else binary.
fn scan_literal(s: &str, n: usize, i: usize) -> (r: Option<(String, usize)>)
    requires
        n == s@.len(),
        i <= n,
    ensures
        found_as(r, spec_literal(s@, i as int)),
        r matches Some((_, j)) ==> j <= n,
{
    match scan_hexadecimal_literal(s, n, i) {
        Some(r) => Some(r),
        None => scan_binary_literal(s, n, i),
    }
}

/// `literal_word` at position `i`.
fn scan_literal_word(s: &str, n: usize, i: usize) -> (r: Option<(Word, usize)>)
    requires
        n == s@.len(),
        i <= n,
    ensures
        found_as(r, spec_literal_word(s@, i as int)),
        r matches Some((_, j)) ==> j <= n,
{
    let (index, j) = scan_opt_index(s, n, i);
    if is_at(s, n, j, '[') {
        match scan_literal(s, n, j + 1) {
            Some((l, k)) => if is_at(s, n, k, ']') {
                Some((Word { index, bit_range: BitRange::Literal(l) }, k + 1))
            } else {
                None
            },
            None => None,
        }
    } else {
        None
    }
}

/// `word` at position `i`.
fn scan_word(s: &str, n: usize, i: usize) -> (r: Option<(Word, usize)>)
    requires
        n == s@.len(),
        i <= n,
    ensures
        found_as(r, spec_word(s@, i as int)),
        r matches Some((_, j)) ==> i < j <= n,
{
    proof {
        lemma_word_advances(s@, i as int);
    }
    match scan_literal_word(s, n, i) {
        Some(r) => Some(r),
        None => match scan_fully_qualified_word(s, n, i) {
            Some(r) => Some(r),
            None => scan_bit_range_as_word(s, n, i),
        },
    }
}

/// `condition` at position `i`.
fn scan_condition(s: &str, n: usize, i: usize) -> (r: Option<(Condition, usize)>)
    requires
        n == s@.len(),
        i <= n,
    ensures
        found_as(r, spec_condition(s@, i as int)),
        r matches Some((_, j)) ==> i < j <= n,
{
    if is_at(s, n, i, '<') && is_at(s, n, i + 1, '=') {
        Some((Condition::Lte, i + 2))
    } else if is_at(s, n, i, '<') {
        Some((Condition::Lt, i + 1))
    } else {
        None
    }
}

/// `fixed_repeat` at position `i`.
fn scan_fixed_repeat(s: &str, n: usize, i: usize) -> (r: Option<(Repeat, usize)>)
    requires
        n == s@.len(),
        i <= n,
    ensures
        found_as(r, spec_fixed_repeat(s@, i as int)),
        r matches Some((_, j)) ==> j <= n,
{
    match scan_index(s, n, i) {
        Some((v, j)) => Some((Repeat::Fixed { number: v as usize }, j)),
        None => None,
    }
}

/// The largest count a condition and a written limit allow, or `None` for
/// `<0`.
fn adjust_limit(c: Condition, limit: u16) -> (r: Option<usize>)
    ensures
        r == adjusted_limit(c, limit),
{
    match c {
        Condition::Lte => Some(limit as usize),
        Condition::Lt => if limit == 0 {
            None
        } else {
            Some((limit - 1) as usize)
        },
    }
}

/// `variable_repeat` at position `i`.
fn scan_variable_repeat(s: &str, n: usize, i: usize) -> (r: Parsed<Repeat>)
    requires
        n == s@.len(),
        i <= n,
    ensures
        parsed_as(r, spec_variable_repeat(s@, i as int)),
        r matches Parsed::Found(_, j) ==> j <= n,
{
    match scan_condition(s, n, i) {
        Some((c, j)) => match scan_index(s, n, j) {
            Some((l, k)) => match adjust_limit(c, l) {
                Some(limit) => Parsed::Found(Repeat::Variable { limit }, k),
                None => Parsed::Underflow,
            },
            None => Parsed::Miss,
        },
        None => Parsed::Miss,
    }
}

/// `dependent_repeat` at position `i`, given what the bit specification
/// after the `(` at `i` parsed to.
fn scan_dependent_repeat_after(s: &str, n: usize, i: usize, inner: Parsed<BitSpec>) -> (r: Parsed<
    Repeat,
>)
    requires
        n == s@.len(),
        i <= n,
        at(s@, i as int, '(') ==> parsed_as(inner, spec_bit_spec(s@, i + 1)),
        inner matches Parsed::Found(_, j) ==> i < j <= n,
    ensures
        parsed_as(r, dependent_repeat_after(s@, i as int, spec_bit_spec(s@, i + 1))),
        r matches Parsed::Found(_, m) ==> i < m <= n,
{
    if is_at(s, n, i, '(') {
        match inner {
            Parsed::Found(b, j) => if is_at(s, n, j, ')') {
                match scan_condition(s, n, j + 1) {
                    Some((c, k)) => {
                        proof {
                            lemma_index_advances(s@, k as int);
                        }
                        match scan_index(s, n, k) {
                            Some((l, m)) => match adjust_limit(c, l) {
                                Some(limit) => Parsed::Found(
                                    Repeat::Dependent { bit_spec: Box::new(b), limit },
                                    m,
                                ),
                                None => Parsed::Underflow,
                            },
                            None => Parsed::Miss,
                        }
                    },
                    None => Parsed::Miss,
                }
            } else {
                Parsed::Miss
            },
            Parsed::Miss => Parsed::Miss,
            Parsed::Underflow => Parsed::Underflow,
        }
    } else {
        Parsed::Miss
    }
}

/// `repeat` at position `i`, given what the bit specification after `;(` at
/// `i` parsed to.
fn scan_repeat_after(s: &str, n: usize, i: usize, inner: Parsed<BitSpec>) -> (r: Parsed<Repeat>)
    requires
        n == s@.len(),
        i <= n,
        at(s@, i as int, ';') && at(s@, i + 1, '(') ==> parsed_as(inner, spec_bit_spec(s@, i + 2)),
        inner matches Parsed::Found(_, j) ==> i + 1 < j <= n,
    ensures
        parsed_as(r, repeat_after(s@, i as int, spec_bit_spec(s@, i + 2))),
        r matches Parsed::Found(_, j) ==> i < j <= n,
{
    if is_at(s, n, i, ';') {
        proof {
            lemma_index_advances(s@, i + 1);
            if i + 2 <= n {
                lemma_index_advances(s@, i + 2);
            }
            if i + 3 <= n {
                lemma_index_advances(s@, i + 3);
            }
        }
        match scan_dependent_repeat_after(s, n, i + 1, inner) {
            Parsed::Miss => match scan_variable_repeat(s, n, i + 1) {
                Parsed::Miss => match scan_fixed_repeat(s, n, i + 1) {
                    Some((r, j)) => Parsed::Found(r, j),
                    None => Parsed::Miss,
                },
                other => other,
            },
            other => other,
        }
    } else {
        Parsed::Miss
    }
}

/// The optional `..` and end word at position `j`.
fn scan_opt_end(s: &str, n: usize, j: usize) -> (r: (Option<Word>, usize))
    requires
        n == s@.len(),
        j <= n,
    ensures
        opt_word_view(r.0) == spec_opt_end(s@, j as int).0,
        r.1 == spec_opt_end(s@, j as int).1,
        j <= r.1 <= n,
{
    if is_at(s, n, j, '.') && is_at(s, n, j + 1, '.') {
        match scan_word(s, n, j + 2) {
            Some((w, k)) => (Some(w), k),
            None => (None, j),
        }
    } else {
        (None, j)
    }
}

/// `bit_spec` at position `i`.
fn scan_bit_spec(s: &str, n: usize, i: usize) -> (r: Parsed<BitSpec>)
    requires
        n == s@.len(),
        i <= n,
    ensures
        parsed_as(r, spec_bit_spec(s@, i as int)),
        r matches Parsed::Found(_, j) ==> i < j <= n,
    decreases n - i,
{
    match scan_word(s, n, i) {
        Some((start, j)) => {
            let (end, p) = scan_opt_end(s, n, j);
            let inner = if is_at(s, n, p, ';') && is_at(s, n, p + 1, '(') {
                scan_bit_spec(s, n, p + 2)
            } else {
                Parsed::Miss
            };
            match scan_repeat_after(s, n, p, inner) {
                Parsed::Found(repeat, m) => Parsed::Found(BitSpec { start, end, repeat }, m),
                Parsed::Miss => Parsed::Found(
                    BitSpec { start, end, repeat: Repeat::NoRepeat },
                    p,
                ),
                Parsed::Underflow => Parsed::Underflow,
            }
        },
        None => Parsed::Miss,
    }
}

/// Why a bit specification was not accepted.
#[derive(Debug, PartialEq, Clone)]
pub enum Error {
    /// The text does not start with a bit specification.
    ParseError,
    /// A bit specification was read, but characters are left after it.
    IllFormed,
}

impl Error {
    /// The message of the error.
    pub fn to_string(&self) -> (r: String)
        ensures
            r@ == "Error in bit specification"@,
    {
        String::from_str("Error in bit specification")
    }
}

/// What parsing a whole text gives: the bit specification when the grammar
/// reads one that spans all of the text, [`Error::IllFormed`] when
/// characters are left after it, and [`Error::ParseError`] when the text
/// does not start with one.
pub open spec fn spec_parse(s: Seq<char>) -> Result<BitSpecV, Error> {
    match spec_bit_spec(s, 0) {
        Scan::Found(b, j) => if j == s.len() {
            Ok(b)
        } else {
            Err(Error::IllFormed)
        },
        _ => Err(Error::ParseError),
    }
}

/// Whether reading the text reaches a `<0` limit, where the arithmetic of
/// the limit underflows.
pub open spec fn parse_underflows(s: Seq<char>) -> bool {
    spec_bit_spec(s, 0) is Underflow
}

/// Whether reading the text reaches a `<0` limit, on which [`parse`] cannot
/// be called.
pub fn parse_underflows_at(bit_spec_string: &str) -> (r: bool)
    ensures
        r == parse_underflows(bit_spec_string@),
{
    let n = bit_spec_string.unicode_len();
    match scan_bit_spec(bit_spec_string, n, 0) {
        Parsed::Underflow => true,
        _ => false,
    }
}

/// Parse the bit-lang specification and return a BitSpec.
pub fn parse(bit_spec_string: &str) -> (r: Result<BitSpec, Error>)
    requires
        !parse_underflows(bit_spec_string@),
    ensures
        match r {
            Ok(b) => spec_parse(bit_spec_string@) == Ok::<BitSpecV, Error>(b@),
            Err(e) => spec_parse(bit_spec_string@) == Err::<BitSpecV, Error>(e),
        },
{
    let n = bit_spec_string.unicode_len();
    match scan_bit_spec(bit_spec_string, n, 0) {
        Parsed::Found(b, j) => if j == n {
            Ok(b)
        } else {
            Err(Error::IllFormed)
        },
        _ => Err(Error::ParseError),
    }
}

/// Whether a sub-parser's result matches the grammar: on success the value
/// is the one the grammar reads and the remaining text is what follows it;
/// on failure the grammar reads nothing.
pub open spec fn consumed<T: View>(
    input: Seq<char>,
    r: Result<(&str, T), Error>,
    m: Option<(T::V, int)>,
) -> bool {
    match r {
        Ok((rest, v)) => m matches Some((w, j)) && w == v@ && rest@ == input.subrange(
            j,
            input.len() as int,
        ),
        Err(e) => m is None && e == Error::ParseError,
    }
}

/// Whether a sub-parser that can stop on a `<0` limit matches the grammar.
pub open spec fn consumed_scan<T: View>(
    input: Seq<char>,
    r: Result<(&str, T), Error>,
    m: Scan<T::V>,
) -> bool {
    match r {
        Ok((rest, v)) => m matches Scan::Found(w, j) && w == v@ && rest@ == input.subrange(
            j,
            input.len() as int,
        ),
        Err(e) => m is Miss && e == Error::ParseError,
    }
}

/// The text after position `j`.
fn rest_from<'a>(input: &'a str, n: usize, j: usize) -> (r: &'a str)
    requires
        n == input@.len(),
        j <= n,
    ensures
        r@ == input@.subrange(j as int, n as int),
{
    input.substring_char(j, n)
}

/// Reads a decimal number that fits in a `u16`.
pub fn index<'a>(input: &'a str) -> (r: Result<(&'a str, u16), Error>)
    ensures
        consumed(input@, r, spec_index(input@, 0)),
{
    let n = input.unicode_len();
    match scan_index(input, n, 0) {
        Some((v, j)) => Ok((rest_from(input, n, j), v)),
        None => Err(Error::ParseError),
    }
}

/// Reads a single bit position.
pub fn single_bit<'a>(input: &'a str) -> (r: Result<(&'a str, BitRange), Error>)
    ensures
        consumed(input@, r, spec_single_bit(input@, 0)),
{
    let n = input.unicode_len();
    match scan_single_bit(input, n, 0) {
        Some((v, j)) => Ok((rest_from(input, n, j), v)),
        None => Err(Error::ParseError),
    }
}

/// Reads an inclusive bit range `a..b`.
pub fn range<'a>(input: &'a str) -> (r: Result<(&'a str, BitRange), Error>)
    ensures
        consumed(input@, r, spec_range(input@, 0)),
{
    let n = input.unicode_len();
    match scan_range(input, n, 0) {
        Some((v, j)) => Ok((rest_from(input, n, j), v)),
        None => Err(Error::ParseError),
    }
}

/// Reads a bit range: a range, or else a single bit.
pub fn bit_range<'a>(input: &'a str) -> (r: Result<(&'a str, BitRange), Error>)
    ensures
        consumed(input@, r, spec_bit_range(input@, 0)),
{
    let n = input.unicode_len();
    match scan_bit_range(input, n, 0) {
        Some((v, j)) => Ok((rest_from(input, n, j), v)),
        None => Err(Error::ParseError),
    }
}

/// Reads `index[bits]`, where the index defaults to 0 and empty brackets
/// mean the whole word.
pub fn fully_qualified_word<'a>(input: &'a str) -> (r: Result<(&'a str, Word), Error>)
    ensures
        consumed(input@, r, spec_fully_qualified_word(input@, 0)),
{
    let n = input.unicode_len();
    match scan_fully_qualified_word(input, n, 0) {
        Some((v, j)) => Ok((rest_from(input, n, j), v)),
        None => Err(Error::ParseError),
    }
}

/// Reads a bare bit range as a bit range of word 0.
pub fn bit_range_as_word<'a>(input: &'a str) -> (r: Result<(&'a str, Word), Error>)
    ensures
        consumed(input@, r, spec_bit_range_as_word(input@, 0)),
{
    let n = input.unicode_len();
    match scan_bit_range_as_word(input, n, 0) {
        Some((v, j)) => Ok((rest_from(input, n, j), v)),
        None => Err(Error::ParseError),
    }
}

/// Reads `index[literal]`, where the index defaults to 0.
pub fn literal_word<'a>(input: &'a str) -> (r: Result<(&'a str, Word), Error>)
    ensures
        consumed(input@, r, spec_literal_word(input@, 0)),
{
    let n = input.unicode_len();
    match scan_literal_word(input, n, 0) {
        Some((v, j)) => Ok((rest_from(input, n, j), v)),
        None => Err(Error::ParseError),
    }
}

/// Reads a word: a literal word, or else a fully qualified word, or else a
/// bare bit range.
pub fn word<'a>(input: &'a str) -> (r: Result<(&'a str, Word), Error>)
    ensures
        consumed(input@, r, spec_word(input@, 0)),
{
    let n = input.unicode_len();
    match scan_word(input, n, 0) {
        Some((v, j)) => Ok((rest_from(input, n, j), v)),
        None => Err(Error::ParseError),
    }
}

/// Reads `<=` or else `<`.
pub fn condition<'a>(input: &'a str) -> (r: Result<(&'a str, Condition), Error>)
    ensures
        consumed(input@, r, spec_condition(input@, 0)),
{
    let n = input.unicode_len();
    match scan_condition(input, n, 0) {
        Some((v, j)) => Ok((rest_from(input, n, j), v)),
        None => Err(Error::ParseError),
    }
}

/// Reads a fixed number of repetitions.
pub fn fixed_repeat<'a>(input: &'a str) -> (r: Result<(&'a str, Repeat), Error>)
    ensures
        consumed(input@, r, spec_fixed_repeat(input@, 0)),
{
    let n = input.unicode_len();
    match scan_fixed_repeat(input, n, 0) {
        Some((v, j)) => Ok((rest_from(input, n, j), v)),
        None => Err(Error::ParseError),
    }
}

/// Reads a hexadecimal literal `0x...` (or `0X...`), kept with a `0x`
/// prefix.
pub fn hexadecimal_literal<'a>(input: &'a str) -> (r: Result<(&'a str, String), Error>)
    ensures
        consumed(input@, r, spec_hexadecimal_literal(input@, 0)),
{
    let n = input.unicode_len();
    match scan_hexadecimal_literal(input, n, 0) {
        Some((v, j)) => Ok((rest_from(input, n, j), v)),
        None => Err(Error::ParseError),
    }
}

/// Reads the separator `_`.
pub fn separater<'a>(input: &'a str) -> (r: Result<(&'a str, char), Error>)
    ensures
        consumed(input@, r, spec_separater(input@, 0)),
{
    let n = input.unicode_len();
    if is_at(input, n, 0, '_') {
        Ok((rest_from(input, n, 1), '_'))
    } else {
        Err(Error::ParseError)
    }
}

/// Reads a binary digit.
pub fn boolean_char<'a>(input: &'a str) -> (r: Result<(&'a str, char), Error>)
    ensures
        consumed(input@, r, spec_boolean_char(input@, 0)),
{
    let n = input.unicode_len();
    match char_at(input, n, 0) {
        Some(c) => if c == '0' || c == '1' {
            Ok((rest_from(input, n, 1), c))
        } else {
            Err(Error::ParseError)
        },
        None => Err(Error::ParseError),
    }
}

/// Reads a binary number, where single `_` may separate runs of digits, and
/// returns the text it spans.
pub fn binary<'a>(input: &'a str) -> (r: Result<(&'a str, &'a str), Error>)
    ensures
        match r {
            Ok((rest, b)) => spec_binary(input@, 0) matches Some((w, j)) && w == b@ && rest@
                == input@.subrange(j, input@.len() as int),
            Err(e) => spec_binary(input@, 0) is None && e == Error::ParseError,
        },
{
    let n = input.unicode_len();
    let j = scan_bits_end(input, n, 0);
    if j > 0 {
        proof {
            lemma_bits_end(input@, 0);
            lemma_binary_end(input@, j as int);
        }
        let k = scan_binary_end(input, n, j);
        Ok((rest_from(input, n, k), input.substring_char(0, k)))
    } else {
        Err(Error::ParseError)
    }
}

/// Reads a binary literal `0b...` (or `0B...`), kept with a `0b` prefix.
pub fn binary_literal<'a>(input: &'a str) -> (r: Result<(&'a str, String), Error>)
    ensures
        consumed(input@, r, spec_binary_literal(input@, 0)),
{
    let n = input.unicode_len();
    match scan_binary_literal(input, n, 0) {
        Some((v, j)) => Ok((rest_from(input, n, j), v)),
        None => Err(Error::ParseError),
    }
}

/// Reads a literal: hexadecimal, or else binary.
pub fn literal<'a>(input: &'a str) -> (r: Result<(&'a str, String), Error>)
    ensures
        consumed(input@, r, spec_literal(input@, 0)),
{
    let n = input.unicode_len();
    match scan_literal(input, n, 0) {
        Some((v, j)) => Ok((rest_from(input, n, j), v)),
        None => Err(Error::ParseError),
    }
}

/// Reads a condition and a limit as a variable repeat.
pub fn variable_repeat<'a>(input: &'a str) -> (r: Result<(&'a str, Repeat), Error>)
    requires
        !(spec_variable_repeat(input@, 0) is Underflow),
    ensures
        consumed_scan(input@, r, spec_variable_repeat(input@, 0)),
{
    let n = input.unicode_len();
    match scan_variable_repeat(input, n, 0) {
        Parsed::Found(v, j) => Ok((rest_from(input, n, j), v)),
        _ => Err(Error::ParseError),
    }
}

/// Reads a bit specification.
pub fn bit_spec<'a>(input: &'a str) -> (r: Result<(&'a str, BitSpec), Error>)
    requires
        !(spec_bit_spec(input@, 0) is Underflow),
    ensures
        consumed_scan(input@, r, spec_bit_spec(input@, 0)),
{
    let n = input.unicode_len();
    match scan_bit_spec(input, n, 0) {
        Parsed::Found(v, j) => Ok((rest_from(input, n, j), v)),
        _ => Err(Error::ParseError),
    }
}

/// Reads a bit specification between `(` and `)`.
pub fn dependent_bit_spec<'a>(input: &'a str) -> (r: Result<(&'a str, BitSpec), Error>)
    requires
        !(spec_dependent_bit_spec(input@, 0) is Underflow),
    ensures
        consumed_scan(input@, r, spec_dependent_bit_spec(input@, 0)),
{
    let n = input.unicode_len();
    if is_at(input, n, 0, '(') {
        match scan_bit_spec(input, n, 1) {
            Parsed::Found(b, j) => if is_at(input, n, j, ')') {
                Ok((rest_from(input, n, j + 1), b))
            } else {
                Err(Error::ParseError)
            },
            _ => Err(Error::ParseError),
        }
    } else {
        Err(Error::ParseError)
    }
}

/// Reads a bracketed bit specification, a condition and a limit as a
/// dependent repeat.
pub fn dependent_repeat<'a>(input: &'a str) -> (r: Result<(&'a str, Repeat), Error>)
    requires
        !(spec_dependent_repeat(input@, 0) is Underflow),
    ensures
        consumed_scan(input@, r, spec_dependent_repeat(input@, 0)),
{
    let n = input.unicode_len();
    let inner = if is_at(input, n, 0, '(') {
        scan_bit_spec(input, n, 1)
    } else {
        Parsed::Miss
    };
    match scan_dependent_repeat_after(input, n, 0, inner) {
        Parsed::Found(v, j) => Ok((rest_from(input, n, j), v)),
        _ => Err(Error::ParseError),
    }
}

/// Reads `;` and a dependent, variable or fixed repeat.
pub fn repeat<'a>(input: &'a str) -> (r: Result<(&'a str, Repeat), Error>)
    requires
        !(spec_repeat(input@, 0) is Underflow),
    ensures
        consumed_scan(input@, r, spec_repeat(input@, 0)),
{
    let n = input.unicode_len();
    let inner = if is_at(input, n, 0, ';') && is_at(input, n, 1, '(') {
        scan_bit_spec(input, n, 2)
    } else {
        Parsed::Miss
    };
    match scan_repeat_after(input, n, 0, inner) {
        Parsed::Found(v, j) => Ok((rest_from(input, n, j), v)),
        _ => Err(Error::ParseError),
    }
}

} // verus!
