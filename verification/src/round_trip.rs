//! Laws that tie the printer to the parser: a bit specification written out
//! with `to_string` parses back to itself, and the short forms that the
//! notation allows for word 0 mean the same as the full form.

use vstd::prelude::*;

use crate::bit_spec::{BitRangeV, BitSpecV, RepeatV, WordV};
use crate::parser::{parse_underflows, spec_parse, Error, spec_bit_spec, spec_condition, spec_opt_end, spec_variable_repeat, dependent_repeat_after, repeat_after, Scan};
use crate::parser::{
    at, binary_end, bits_end, digit_value, digits_end, digits_value, hex_end, is_bin, is_digit,
    is_hex_char, spec_bit_range, spec_binary_literal, spec_fully_qualified_word,
    spec_hexadecimal_literal, spec_index, spec_literal, spec_literal_word, spec_opt_index,
    spec_range, spec_short_range, spec_word,
};
use crate::text::{bit_spec_text, dec, digit_chars, range_text, repeat_text, word_text};

verus! {

/// Whether the text `t` stands in `s` from position `i`.
pub open spec fn text_at(s: Seq<char>, i: int, t: Seq<char>) -> bool {
    0 <= i && i + t.len() <= s.len() && s.subrange(i, i + t.len()) == t
}

/// The characters of a text that stands in `s` are those of `s`.
pub proof fn lemma_text_at_index(s: Seq<char>, i: int, t: Seq<char>, k: int)
    requires
        text_at(s, i, t),
        0 <= k < t.len(),
    ensures
        s[i + k] == t[k],
{
    assert(s.subrange(i, i + t.len())[k] == s[i + k]);
}

/// A concatenation stands in `s` exactly when its parts stand one after the
/// other.
pub proof fn lemma_text_at_split(s: Seq<char>, i: int, a: Seq<char>, b: Seq<char>)
    requires
        text_at(s, i, a + b),
    ensures
        text_at(s, i, a),
        text_at(s, i + a.len(), b),
{
    let w = s.subrange(i, i + (a + b).len());
    assert(w == a + b);
    assert(s.subrange(i, i + a.len()) =~= w.subrange(0, a.len() as int));
    assert(w.subrange(0, a.len() as int) =~= a);
    assert(s.subrange(i + a.len(), i + a.len() + b.len()) =~= w.subrange(
        a.len() as int,
        w.len() as int,
    ));
    assert(w.subrange(a.len() as int, w.len() as int) =~= b);
}

/// The decimal form of a number is a non-empty run of digits that spells
/// the number.
pub proof fn lemma_dec(v: nat)
    ensures
        dec(v).len() >= 1,
        forall|k: int| 0 <= k < dec(v).len() ==> is_digit(#[trigger] dec(v)[k]),
        digits_value(dec(v), 0, dec(v).len() as int) == v,
    decreases v,
{
    if v < 10 {
        assert(digits_value(dec(v), 0, 0) == 0);
        assert(digit_value(dec(v)[0]) == v);
        assert(digits_value(dec(v), 0, 1) == 10 * digits_value(dec(v), 0, 0) + digit_value(dec(v)[0]));
    } else {
        lemma_dec(v / 10);
        let p = dec(v / 10);
        let d = digit_chars()[(v % 10) as int];
        assert(dec(v) == p.push(d));
        lemma_digits_value_prefix(p, d, p.len() as int);
        assert(p.push(d)[p.len() as int] == d);
        assert(digits_value(p.push(d), 0, (p.len() + 1) as int) == 10 * digits_value(
            p.push(d),
            0,
            p.len() as int,
        ) + digit_value(d));
        assert(digit_value(d) == v % 10);
        assert forall|k: int| 0 <= k < dec(v).len() implies is_digit(#[trigger] dec(v)[k]) by {
            if k < p.len() {
                assert(dec(v)[k] == p[k]);
            }
        }
    }
}

/// Appending a character leaves the value of the digits before it as it
/// was.
pub proof fn lemma_digits_value_prefix(p: Seq<char>, d: char, m: int)
    requires
        0 <= m <= p.len(),
    ensures
        digits_value(p.push(d), 0, m) == digits_value(p, 0, m),
    decreases m,
{
    if m > 0 {
        lemma_digits_value_prefix(p, d, m - 1);
        assert(p.push(d)[m - 1] == p[m - 1]);
    }
}

/// The value of digits that stand in `s` is their value on their own.
pub proof fn lemma_digits_value_shift(s: Seq<char>, i: int, t: Seq<char>, m: int)
    requires
        text_at(s, i, t),
        0 <= m <= t.len(),
    ensures
        digits_value(s, i, i + m) == digits_value(t, 0, m),
    decreases m,
{
    if m > 0 {
        lemma_digits_value_shift(s, i, t, m - 1);
        lemma_text_at_index(s, i, t, m - 1);
    }
}

/// A run of digits ends at the first position that holds no digit.
pub proof fn lemma_digits_end_run(s: Seq<char>, i: int, e: int)
    requires
        0 <= i <= e <= s.len(),
        forall|k: int| i <= k < e ==> is_digit(#[trigger] s[k]),
        e == s.len() || !is_digit(s[e]),
    ensures
        digits_end(s, i) == e,
    decreases e - i,
{
    if i < e {
        lemma_digits_end_run(s, i + 1, e);
    }
}

/// Whether position `k` of `s` ends a number: nothing follows or what
/// follows is no digit.
pub open spec fn ends_number(s: Seq<char>, k: int) -> bool {
    k == s.len() || (0 <= k < s.len() && !is_digit(s[k]))
}

/// The decimal form of a `u16` reads back as an index.
pub proof fn lemma_index_of_dec(s: Seq<char>, i: int, v: nat)
    requires
        text_at(s, i, dec(v)),
        v <= u16::MAX,
        ends_number(s, i + dec(v).len()),
    ensures
        spec_index(s, i) == Some((v as u16, i + dec(v).len())),
{
    let t = dec(v);
    lemma_dec(v);
    assert forall|k: int| i <= k < i + t.len() implies is_digit(#[trigger] s[k]) by {
        lemma_text_at_index(s, i, t, k - i);
    }
    lemma_digits_end_run(s, i, i + t.len());
    lemma_digits_value_shift(s, i, t, t.len() as int);
}

/// A bit range in the form the printer writes: a single bit or a range of
/// bits (whose numbers are `u16` by type), or a literal in the form the
/// parser keeps it.
pub open spec fn wf_bit_range(r: BitRangeV) -> bool {
    match r {
        BitRangeV::Literal(l) => wf_literal(l),
        _ => true,
    }
}

/// Hexadecimal literal digits: at least one hexadecimal digit or `_`.
pub open spec fn wf_hex_digits(h: Seq<char>) -> bool {
    h.len() >= 1 && forall|k: int| 0 <= k < h.len() ==> is_hex_char(#[trigger] h[k])
}

/// Binary literal digits: binary digits where single `_` separate runs of
/// digits, starting with a digit.
pub open spec fn wf_binary_digits(b: Seq<char>) -> bool {
    &&& b.len() >= 1
    &&& is_bin(b[0])
    &&& forall|k: int|
        0 <= k < b.len() ==> is_bin(#[trigger] b[k]) || (b[k] == '_' && k + 1 < b.len() && is_bin(
            b[k + 1],
        ))
}

/// A literal as the parser keeps it: `0x` and hexadecimal digits, or `0b`
/// and binary digits.
pub open spec fn wf_literal(l: Seq<char>) -> bool {
    &&& l.len() >= 2
    &&& l[0] == '0'
    &&& ((l[1] == 'x' && wf_hex_digits(l.subrange(2, l.len() as int))) || (l[1] == 'b'
        && wf_binary_digits(l.subrange(2, l.len() as int))))
}

/// A word the printer writes in a form the parser reads back: its index
/// fits in a `u16` and its bit range is well formed.
pub open spec fn wf_word(w: WordV) -> bool {
    w.index <= u16::MAX && wf_bit_range(w.bit_range)
}

/// A run of hexadecimal literal characters ends at the first other
/// character.
pub proof fn lemma_hex_end_run(s: Seq<char>, i: int, e: int)
    requires
        0 <= i <= e < s.len(),
        forall|k: int| i <= k < e ==> is_hex_char(#[trigger] s[k]),
        !is_hex_char(s[e]),
    ensures
        hex_end(s, i) == e,
    decreases e - i,
{
    if i < e {
        lemma_hex_end_run(s, i + 1, e);
    }
}

/// Whether `s[a..e]` is a binary number whose runs of digits are separated
/// by single `_`, followed by a character that is neither a digit nor `_`.
pub open spec fn binary_region(s: Seq<char>, a: int, e: int) -> bool {
    &&& 0 <= a <= e < s.len()
    &&& !is_bin(s[e])
    &&& s[e] != '_'
    &&& forall|k: int|
        a <= k < e ==> is_bin(#[trigger] s[k]) || (s[k] == '_' && k + 1 < e && is_bin(s[k + 1]))
}

/// Inside a binary region, a run of digits ends at a `_` or at the end of
/// the region.
pub proof fn lemma_bits_end_region(s: Seq<char>, a: int, e: int, p: int)
    requires
        binary_region(s, a, e),
        a <= p <= e,
    ensures
        p <= bits_end(s, p) <= e,
        bits_end(s, p) == e || s[bits_end(s, p)] == '_',
    decreases e - p,
{
    if p < e && is_bin(s[p]) {
        lemma_bits_end_region(s, a, e, p + 1);
    }
}

/// Inside a binary region, a binary number that continues after a run of
/// digits ends at the end of the region.
pub proof fn lemma_binary_end_region(s: Seq<char>, a: int, e: int, p: int)
    requires
        binary_region(s, a, e),
        a <= p <= e,
        p == e || s[p] == '_',
    ensures
        binary_end(s, p) == e,
    decreases e - p,
{
    if p < e {
        assert(is_bin(s[p + 1]));
        lemma_bits_end_region(s, a, e, p + 1);
        lemma_binary_end_region(s, a, e, bits_end(s, p + 1));
    }
}

/// A well formed literal followed by `]` reads back as itself.
pub proof fn lemma_literal_text(s: Seq<char>, i: int, l: Seq<char>)
    requires
        wf_literal(l),
        text_at(s, i, l),
        at(s, i + l.len(), ']'),
    ensures
        spec_literal(s, i) == Some((l, i + l.len())),
{
    let e = i + l.len();
    let d = l.subrange(2, l.len() as int);
    lemma_text_at_index(s, i, l, 0);
    lemma_text_at_index(s, i, l, 1);
    assert forall|k: int| 0 <= k < d.len() implies s[i + 2 + k] == #[trigger] d[k] by {
        lemma_text_at_index(s, i, l, k + 2);
    }
    if l[1] == 'x' {
        assert forall|k: int| i + 2 <= k < e implies is_hex_char(#[trigger] s[k]) by {
            assert(s[i + 2 + (k - i - 2)] == d[k - i - 2]);
        }
        lemma_hex_end_run(s, i + 2, e);
        assert(s.subrange(i + 2, e) =~= d);
        assert(seq!['0', 'x'] + d =~= l);
    } else {
        assert(spec_hexadecimal_literal(s, i) is None);
        assert forall|k: int| i + 2 <= k < e implies is_bin(#[trigger] s[k]) || (s[k] == '_' && k
            + 1 < e && is_bin(s[k + 1])) by {
            assert(s[i + 2 + (k - i - 2)] == d[k - i - 2]);
            if k + 1 < e {
                assert(s[i + 2 + (k + 1 - i - 2)] == d[k + 1 - i - 2]);
            }
        }
        assert(binary_region(s, i + 2, e));
        assert(s[i + 2] == d[0]);
        lemma_bits_end_region(s, i + 2, e, i + 2);
        lemma_binary_end_region(s, i + 2, e, bits_end(s, i + 2));
        assert(s.subrange(i + 2, e) =~= d);
        assert(seq!['0', 'b'] + d =~= l);
        assert(spec_binary_literal(s, i) == Some((l, e)));
    }
}

/// A single bit or a range of bits, written out, reads back as itself when
/// no digit follows (and, for a single bit, no `.`).
pub proof fn lemma_range_text(s: Seq<char>, i: int, r: BitRangeV)
    requires
        r is Single || r is Range,
        text_at(s, i, range_text(r)),
        ends_number(s, i + range_text(r).len()),
        r is Single ==> !at(s, i + range_text(r).len(), '.'),
    ensures
        spec_bit_range(s, i) == Some((r, i + range_text(r).len())),
{
    match r {
        BitRangeV::Single(p) => {
            lemma_index_of_dec(s, i, p as nat);
        },
        BitRangeV::Range(a, b) => {
            let ta = dec(a as nat);
            let tb = dec(b as nat);
            lemma_text_at_split(s, i, ta + seq!['.', '.'], tb);
            lemma_text_at_split(s, i, ta, seq!['.', '.']);
            lemma_text_at_index(s, i + ta.len(), seq!['.', '.'], 0);
            lemma_text_at_index(s, i + ta.len(), seq!['.', '.'], 1);
            lemma_index_of_dec(s, i, a as nat);
            lemma_index_of_dec(s, i + ta.len() + 2, b as nat);
        },
        _ => {},
    }
}

/// A word written out reads back as itself.
pub proof fn lemma_word_text(s: Seq<char>, i: int, w: WordV)
    requires
        wf_word(w),
        text_at(s, i, word_text(w)),
    ensures
        spec_word(s, i) == Some((w, i + word_text(w).len())),
{
    lemma_word_indexed(s, i, w, false);
}

/// A range of bits in its short form: the first and the last bit separated
/// by one `.`.
pub open spec fn short_range_text(r: BitRangeV) -> Seq<char> {
    match r {
        BitRangeV::Range(a, b) => dec(a as nat) + seq!['.'] + dec(b as nat),
        _ => Seq::empty(),
    }
}

/// How a word is written in one of the forms the notation allows: in full,
/// or, for word 0, without its index (`[bits]`) or, for a single bit or a
/// range of bits, bare (`bits`) or, for a range of bits, short (`a.b`).
pub open spec fn word_form_text(w: WordV, form: WordForm) -> Seq<char> {
    match form {
        WordForm::Full => word_text(w),
        WordForm::NoIndex => seq!['['] + range_text(w.bit_range) + seq![']'],
        WordForm::Bare => range_text(w.bit_range),
        WordForm::Short => short_range_text(w.bit_range),
    }
}

/// The forms in which a word can be written.
pub enum WordForm {
    Full,
    NoIndex,
    Bare,
    Short,
}

/// Whether a word may be written in a form: the short forms are for word 0
/// only, and the bare form for single bits and ranges of bits.
pub open spec fn form_allowed(w: WordV, form: WordForm) -> bool {
    match form {
        WordForm::Full => true,
        WordForm::NoIndex => w.index == 0,
        WordForm::Bare => w.index == 0 && (w.bit_range is Single || w.bit_range is Range),
        WordForm::Short => w.index == 0 && w.bit_range is Range,
    }
}

/// A word written in any allowed form reads back as itself; the bare form
/// needs that no digit, `[` or (after a single bit) `.` follows it.
pub proof fn lemma_word_form(s: Seq<char>, i: int, w: WordV, form: WordForm)
    requires
        wf_word(w),
        form_allowed(w, form),
        text_at(s, i, word_form_text(w, form)),
        form is Bare || form is Short ==> ends_number(s, i + word_form_text(w, form).len()) && !at(
            s,
            i + word_form_text(w, form).len(),
            '[',
        ) && (w.bit_range is Single ==> !at(s, i + word_form_text(w, form).len(), '.')),
    ensures
        spec_word(s, i) == Some((w, i + word_form_text(w, form).len())),
{
    match form {
        WordForm::Full => lemma_word_indexed(s, i, w, false),
        WordForm::NoIndex => {
            assert(dec(0) =~= seq!['0']);
            lemma_word_indexed(s, i, w, true);
        },
        WordForm::Bare => lemma_word_bare(s, i, w),
        WordForm::Short => lemma_word_short(s, i, w),
    }
}

/// A range of bits written in its short form reads back as a range of bits
/// of word 0.
pub proof fn lemma_word_short(s: Seq<char>, i: int, w: WordV)
    requires
        w.index == 0,
        w.bit_range is Range,
        text_at(s, i, short_range_text(w.bit_range)),
        ends_number(s, i + short_range_text(w.bit_range).len()),
    ensures
        spec_word(s, i) == Some((w, i + short_range_text(w.bit_range).len())),
{
    let (a, b) = match w.bit_range {
        BitRangeV::Range(a, b) => (a, b),
        _ => (0u16, 0u16),
    };
    let ta = dec(a as nat);
    let tb = dec(b as nat);
    lemma_dec(a as nat);
    lemma_dec(b as nat);
    lemma_text_at_split(s, i, ta + seq!['.'], tb);
    lemma_text_at_split(s, i, ta, seq!['.']);
    lemma_text_at_index(s, i + ta.len(), seq!['.'], 0);
    lemma_text_at_index(s, i + ta.len() + 1, tb, 0);
    lemma_index_of_dec(s, i, a as nat);
    lemma_index_of_dec(s, i + ta.len() + 1, b as nat);
    let j = i + ta.len();
    assert(!at(s, j, '['));
    assert(spec_literal_word(s, i) is None);
    assert(spec_fully_qualified_word(s, i) is None);
    assert(spec_range(s, i) is None);
    assert(spec_short_range(s, i) == Some((w.bit_range, i + short_range_text(w.bit_range).len())));
}

/// A bare single bit or range of bits reads back as a bit range of word 0.
pub proof fn lemma_word_bare(s: Seq<char>, i: int, w: WordV)
    requires
        wf_word(w),
        w.index == 0,
        w.bit_range is Single || w.bit_range is Range,
        text_at(s, i, range_text(w.bit_range)),
        ends_number(s, i + range_text(w.bit_range).len()),
        !at(s, i + range_text(w.bit_range).len(), '['),
        w.bit_range is Single ==> !at(s, i + range_text(w.bit_range).len(), '.'),
    ensures
        spec_word(s, i) == Some((w, i + range_text(w.bit_range).len())),
{
    let tr = range_text(w.bit_range);
    let e = i + tr.len();
    let (a, rest) = match w.bit_range {
        BitRangeV::Single(p) => (p, Seq::<char>::empty()),
        BitRangeV::Range(a, b) => (a, seq!['.', '.'] + dec(b as nat)),
        _ => (0u16, Seq::<char>::empty()),
    };
    let ta = dec(a as nat);
    assert(tr == ta + rest);
    lemma_text_at_split(s, i, ta, rest);
    if rest.len() > 0 {
        lemma_text_at_index(s, i + ta.len(), rest, 0);
        lemma_index_of_dec(s, i, a as nat);
    } else {
        lemma_index_of_dec(s, i, a as nat);
    }
    let j = i + ta.len();
    assert(!at(s, j, '['));
    assert(spec_literal_word(s, i) is None);
    assert(spec_fully_qualified_word(s, i) is None);
    lemma_range_text(s, i, w.bit_range);
}

/// A word written with or without its index reads back as itself.
pub proof fn lemma_word_indexed(s: Seq<char>, i: int, w: WordV, short: bool)
    requires
        wf_word(w),
        short ==> w.index == 0,
        text_at(
            s,
            i,
            if short {
                Seq::empty()
            } else {
                dec(w.index as nat)
            } + seq!['['] + range_text(w.bit_range) + seq![']'],
        ),
    ensures
        spec_word(s, i) == Some((
            w,
            i + (if short {
                Seq::empty()
            } else {
                dec(w.index as nat)
            } + seq!['['] + range_text(w.bit_range) + seq![']']).len(),
        )),
{
    let td = if short {
        Seq::<char>::empty()
    } else {
        dec(w.index as nat)
    };
    let tr = range_text(w.bit_range);
    let j = i + td.len();
    lemma_text_at_split(s, i, td + seq!['['] + tr, seq![']']);
    lemma_text_at_split(s, i, td + seq!['['], tr);
    lemma_text_at_split(s, i, td, seq!['[']);
    lemma_text_at_index(s, j, seq!['['], 0);
    let k = j + 1 + tr.len();
    lemma_text_at_index(s, k, seq![']'], 0);
    if short {
        assert(spec_index(s, i) is None);
    } else {
        lemma_index_of_dec(s, i, w.index as nat);
    }
    assert(spec_opt_index(s, i) == (w.index, j));
    match w.bit_range {
        BitRangeV::Literal(l) => {
            lemma_literal_text(s, j + 1, l);
        },
        BitRangeV::WholeWord => {
            assert(spec_literal(s, j + 1) is None);
            assert(spec_literal_word(s, i) is None);
            assert(spec_index(s, j + 1) is None);
            assert(spec_fully_qualified_word(s, i) == Some((w, k + 1)));
        },
        _ => {
            lemma_dec(match w.bit_range {
                BitRangeV::Single(p) => p as nat,
                BitRangeV::Range(a, _) => a as nat,
                _ => 0,
            });
            let first = match w.bit_range {
                BitRangeV::Single(p) => dec(p as nat),
                BitRangeV::Range(a, _) => dec(a as nat),
                _ => Seq::empty(),
            };
            assert(tr.subrange(0, first.len() as int) =~= first) by {
                match w.bit_range {
                    BitRangeV::Range(a, b) => {
                        assert(tr == first + seq!['.', '.'] + dec(b as nat));
                    },
                    _ => {},
                }
            }
            lemma_text_at_index(s, j + 1, tr, 0);
            assert(s[j + 1] == first[0]);
            if first.len() >= 2 {
                lemma_text_at_index(s, j + 1, tr, 1);
                assert(s[j + 2] == first[1]);
            } else {
                match w.bit_range {
                    BitRangeV::Range(a, b) => {
                        assert(tr == first + seq!['.', '.'] + dec(b as nat));
                        lemma_text_at_index(s, j + 1, tr, 1);
                        assert(s[j + 2] == '.');
                    },
                    _ => {
                        assert(tr == first);
                        assert(s[j + 2] == ']');
                    },
                }
            }
            assert(spec_literal(s, j + 1) is None);
            lemma_range_text(s, j + 1, w.bit_range);
        },
    }
}

/// A repeat the printer writes in a form the parser reads back: its numbers
/// fit in a `u16` and a dependent repeat's bit specification is well formed.
pub open spec fn wf_repeat(r: RepeatV) -> bool
    decreases r,
{
    match r {
        RepeatV::Fixed { number } => number <= u16::MAX,
        RepeatV::Dependent { bit_spec, limit } => limit <= u16::MAX && wf_bit_spec(*bit_spec),
        RepeatV::Variable { limit } => limit <= u16::MAX,
        RepeatV::NoRepeat => true,
    }
}

/// A bit specification the printer writes in a form the parser reads back:
/// every index, count and limit fits in a `u16`, which is what the grammar
/// reads numbers into, and every literal has the form the parser keeps.
pub open spec fn wf_bit_spec(b: BitSpecV) -> bool
    decreases b,
{
    &&& wf_word(b.start)
    &&& match b.end {
        Some(e) => wf_word(e),
        None => true,
    }
    &&& wf_repeat(b.repeat)
}

/// Whether position `k` closes a bit specification: the text ends there or
/// a `)` follows.
pub open spec fn closes(s: Seq<char>, k: int) -> bool {
    k == s.len() || at(s, k, ')')
}

/// The text of a repeat as it follows a bit specification's words: nothing
/// for no repeat, else `;` and the repeat.
pub open spec fn repeat_tail(r: RepeatV) -> Seq<char> {
    match r {
        RepeatV::NoRepeat => Seq::empty(),
        _ => seq![';'] + repeat_text(r),
    }
}

/// The text of the optional end word: nothing, or `..` and the word.
pub open spec fn end_tail(e: Option<WordV>) -> Seq<char> {
    match e {
        Some(w) => seq!['.', '.'] + word_text(w),
        None => Seq::empty(),
    }
}

/// The inner bit specification that the grammar reads for a repeat at `p`.
pub open spec fn inner_at(s: Seq<char>, p: int) -> Scan<BitSpecV> {
    if at(s, p, ';') && at(s, p + 1, '(') {
        spec_bit_spec(s, p + 2)
    } else {
        Scan::Miss
    }
}

/// The optional end word, written out, reads back as itself when what
/// follows is no `.`.
pub proof fn lemma_end_tail(s: Seq<char>, j: int, e: Option<WordV>)
    requires
        e matches Some(w) ==> wf_word(w),
        text_at(s, j, end_tail(e)),
        !at(s, j + end_tail(e).len(), '.'),
    ensures
        spec_opt_end(s, j) == (e, j + end_tail(e).len()),
{
    match e {
        Some(w) => {
            lemma_text_at_split(s, j, seq!['.', '.'], word_text(w));
            lemma_text_at_index(s, j, seq!['.', '.'], 0);
            lemma_text_at_index(s, j, seq!['.', '.'], 1);
            lemma_word_text(s, j + 2, w);
        },
        None => {},
    }
}

/// A repeat, written out after a bit specification's words, reads back as
/// itself when the text closes after it, given that the inner bit
/// specification of a dependent repeat reads back as itself.
pub proof fn lemma_repeat_tail(s: Seq<char>, p: int, r: RepeatV)
    requires
        wf_repeat(r),
        text_at(s, p, repeat_tail(r)),
        closes(s, p + repeat_tail(r).len()),
        r matches RepeatV::Dependent { bit_spec, .. } ==> spec_bit_spec(s, p + 2) == Scan::Found(
            *bit_spec,
            p + 2 + bit_spec_text(*bit_spec).len(),
        ),
    ensures
        repeat_after(s, p, inner_at(s, p)) == match r {
            RepeatV::NoRepeat => Scan::Miss,
            _ => Scan::Found(r, p + repeat_tail(r).len()),
        },
{
    match r {
        RepeatV::NoRepeat => {},
        RepeatV::Fixed { number } => lemma_repeat_fixed(s, p, number),
        RepeatV::Variable { limit } => lemma_repeat_variable(s, p, limit),
        RepeatV::Dependent { bit_spec, limit } => lemma_repeat_dependent(s, p, *bit_spec, limit),
    }
}

/// `;n` reads back as a fixed repeat.
pub proof fn lemma_repeat_fixed(s: Seq<char>, p: int, number: usize)
    requires
        number <= u16::MAX,
        text_at(s, p, repeat_tail(RepeatV::Fixed { number })),
        closes(s, p + repeat_tail(RepeatV::Fixed { number }).len()),
    ensures
        repeat_after(s, p, inner_at(s, p)) == Scan::Found(
            RepeatV::Fixed { number },
            p + repeat_tail(RepeatV::Fixed { number }).len(),
        ),
{
    let d = dec(number as nat);
    lemma_dec(number as nat);
    lemma_text_at_split(s, p, seq![';'], d);
    lemma_text_at_index(s, p, seq![';'], 0);
    lemma_text_at_index(s, p + 1, d, 0);
    lemma_index_of_dec(s, p + 1, number as nat);
    assert(dependent_repeat_after(s, p + 1, inner_at(s, p)) is Miss);
    assert(spec_variable_repeat(s, p + 1) is Miss);
}

/// `;<=l` reads back as a variable repeat.
pub proof fn lemma_repeat_variable(s: Seq<char>, p: int, limit: usize)
    requires
        limit <= u16::MAX,
        text_at(s, p, repeat_tail(RepeatV::Variable { limit })),
        closes(s, p + repeat_tail(RepeatV::Variable { limit }).len()),
    ensures
        repeat_after(s, p, inner_at(s, p)) == Scan::Found(
            RepeatV::Variable { limit },
            p + repeat_tail(RepeatV::Variable { limit }).len(),
        ),
{
    let d = dec(limit as nat);
    assert(repeat_tail(RepeatV::Variable { limit }) == seq![';', '<', '='] + d);
    lemma_text_at_split(s, p, seq![';', '<', '='], d);
    lemma_text_at_index(s, p, seq![';', '<', '='], 0);
    lemma_text_at_index(s, p, seq![';', '<', '='], 1);
    lemma_text_at_index(s, p, seq![';', '<', '='], 2);
    lemma_index_of_dec(s, p + 3, limit as nat);
    assert(dependent_repeat_after(s, p + 1, inner_at(s, p)) is Miss);
}

/// `;(b)<=l` reads back as a dependent repeat, given that `b` does.
pub proof fn lemma_repeat_dependent(s: Seq<char>, p: int, b: BitSpecV, limit: usize)
    requires
        limit <= u16::MAX,
        text_at(s, p, repeat_tail(RepeatV::Dependent { bit_spec: Box::new(b), limit })),
        closes(s, p + repeat_tail(RepeatV::Dependent { bit_spec: Box::new(b), limit }).len()),
        spec_bit_spec(s, p + 2) == Scan::Found(b, p + 2 + bit_spec_text(b).len()),
    ensures
        repeat_after(s, p, inner_at(s, p)) == Scan::Found(
            RepeatV::Dependent { bit_spec: Box::new(b), limit },
            p + repeat_tail(RepeatV::Dependent { bit_spec: Box::new(b), limit }).len(),
        ),
{
    let ti = bit_spec_text(b);
    let d = dec(limit as nat);
    assert(repeat_tail(RepeatV::Dependent { bit_spec: Box::new(b), limit }) == seq![';', '(']
        + ti + seq![')', '<', '='] + d);
    lemma_text_at_split(s, p, seq![';', '('] + ti + seq![')', '<', '='], d);
    lemma_text_at_split(s, p, seq![';', '('] + ti, seq![')', '<', '=']);
    lemma_text_at_split(s, p, seq![';', '('], ti);
    lemma_text_at_index(s, p, seq![';', '('], 0);
    lemma_text_at_index(s, p, seq![';', '('], 1);
    let q = p + 2 + ti.len();
    lemma_text_at_index(s, q, seq![')', '<', '='], 0);
    lemma_text_at_index(s, q, seq![')', '<', '='], 1);
    lemma_text_at_index(s, q, seq![')', '<', '='], 2);
    assert(spec_condition(s, q + 1) == Some((crate::bit_spec::Condition::Lte, q + 3)));
    lemma_index_of_dec(s, q + 3, limit as nat);
}

/// A bit specification written out reads back as itself when the text ends
/// after it or a `)` follows.
pub proof fn lemma_bit_spec_text(s: Seq<char>, i: int, b: BitSpecV)
    requires
        wf_bit_spec(b),
        text_at(s, i, bit_spec_text(b)),
        closes(s, i + bit_spec_text(b).len()),
    ensures
        spec_bit_spec(s, i) == Scan::Found(b, i + bit_spec_text(b).len()),
    decreases b, 1nat,
{
    assert(bit_spec_text(b) == form_text(b, WordForm::Full));
    lemma_bit_spec_form(s, i, b, WordForm::Full);
}

/// How a bit specification is written when its start word is written in
/// the given form.
pub open spec fn form_text(b: BitSpecV, form: WordForm) -> Seq<char> {
    word_form_text(b.start, form) + end_tail(b.end) + repeat_tail(b.repeat)
}

/// Whether the start word of a bit specification may be written in a form:
/// a bare single bit may not be followed by an end word, which would be
/// read as the end of a range.
pub open spec fn start_form_allowed(b: BitSpecV, form: WordForm) -> bool {
    form_allowed(b.start, form) && (form is Bare && b.start.bit_range is Single ==> b.end is None)
}

/// A bit specification whose start word is written in an allowed form reads
/// back as itself when the text ends after it or a `)` follows.
#[verifier::spinoff_prover]
#[verifier::rlimit(40)]
pub proof fn lemma_bit_spec_form(s: Seq<char>, i: int, b: BitSpecV, form: WordForm)
    requires
        wf_bit_spec(b),
        start_form_allowed(b, form),
        text_at(s, i, form_text(b, form)),
        closes(s, i + form_text(b, form).len()),
    ensures
        spec_bit_spec(s, i) == Scan::Found(b, i + form_text(b, form).len()),
    decreases b, 0nat,
{
    let tw = word_form_text(b.start, form);
    let te = end_tail(b.end);
    let tr = repeat_tail(b.repeat);
    let j = i + tw.len();
    let p = j + te.len();
    lemma_text_at_split(s, i, tw + te, tr);
    lemma_text_at_split(s, i, tw, te);
    if tr.len() > 0 {
        lemma_text_at_index(s, p, tr, 0);
    }
    if te.len() > 0 {
        lemma_text_at_index(s, j, te, 0);
    }
    lemma_word_form(s, i, b.start, form);
    lemma_end_tail(s, j, b.end);
    match b.repeat {
        RepeatV::Dependent { bit_spec, limit } => {
            let ti = bit_spec_text(*bit_spec);
            assert(tr == seq![';', '('] + ti + (seq![')', '<', '='] + dec(limit as nat)));
            lemma_text_at_split(s, p, seq![';', '('] + ti, seq![')', '<', '='] + dec(limit as nat));
            lemma_text_at_split(s, p, seq![';', '('], ti);
            lemma_text_at_index(s, p + 2 + ti.len(), seq![')', '<', '='] + dec(limit as nat), 0);
            lemma_bit_spec_text(s, p + 2, *bit_spec);
        },
        _ => {},
    }
    lemma_repeat_tail(s, p, b.repeat);
}

/// The whole text `s` stands in `s` from position 0.
proof fn lemma_text_at_whole(s: Seq<char>)
    ensures
        text_at(s, 0, s),
{
    assert(s.subrange(0, s.len() as int) =~= s);
}

/// Law: a bit specification written out with `to_string` parses back to
/// itself, for every bit specification whose indexes, counts and limits fit
/// in a `u16` and whose literals have the form the parser keeps.
pub proof fn law_parse_to_string(b: BitSpecV)
    requires
        wf_bit_spec(b),
    ensures
        !parse_underflows(bit_spec_text(b)),
        spec_parse(bit_spec_text(b)) == Ok::<BitSpecV, Error>(b),
{
    let s = bit_spec_text(b);
    lemma_text_at_whole(s);
    lemma_bit_spec_text(s, 0, b);
}

/// Law: the index of word 0 may be left out; `[bits]` means the same as
/// `0[bits]` (for example `[5] == 0[5]` and `[] == 0[]`).
#[verifier::rlimit(40)]
pub proof fn law_word_index_defaults_to_zero(b: BitSpecV)
    requires
        wf_bit_spec(b),
        b.start.index == 0,
    ensures
        bit_spec_text(b) == seq!['0'] + form_text(b, WordForm::NoIndex),
        !parse_underflows(form_text(b, WordForm::NoIndex)),
        spec_parse(form_text(b, WordForm::NoIndex)) == Ok::<BitSpecV, Error>(b),
{
    assert(dec(0) =~= seq!['0']);
    let short = word_form_text(b.start, WordForm::NoIndex);
    let te = end_tail(b.end);
    let tr = repeat_tail(b.repeat);
    assert(word_text(b.start) =~= seq!['0'] + short);
    assert(bit_spec_text(b) == word_text(b.start) + te + tr);
    assert((seq!['0'] + short) + te + tr =~= seq!['0'] + (short + te + tr));
    let s = form_text(b, WordForm::NoIndex);
    lemma_text_at_whole(s);
    lemma_bit_spec_form(s, 0, b, WordForm::NoIndex);
}

/// Law: a single bit or a range of bits in word 0 may be written without
/// index and brackets; `5` means `[5]` and `0[5]`, and `3..6` means
/// `[3..6]` and `0[3..6]`. A bare single bit followed by an end word would
/// be read as a range, so that case is left out.
pub proof fn law_bare_bit_range(b: BitSpecV)
    requires
        wf_bit_spec(b),
        start_form_allowed(b, WordForm::Bare),
    ensures
        !parse_underflows(form_text(b, WordForm::Bare)),
        spec_parse(form_text(b, WordForm::Bare)) == Ok::<BitSpecV, Error>(b),
{
    let s = form_text(b, WordForm::Bare);
    lemma_text_at_whole(s);
    lemma_bit_spec_form(s, 0, b, WordForm::Bare);
}

/// Law: a range of bits in word 0 may be written in short, its first and
/// last bit separated by one `.`; `3.6` means `[3..6]` and `0[3..6]`.
pub proof fn law_short_range(b: BitSpecV)
    requires
        wf_bit_spec(b),
        start_form_allowed(b, WordForm::Short),
    ensures
        !parse_underflows(form_text(b, WordForm::Short)),
        spec_parse(form_text(b, WordForm::Short)) == Ok::<BitSpecV, Error>(b),
        spec_parse(form_text(b, WordForm::Short)) == spec_parse(form_text(b, WordForm::NoIndex)),
        spec_parse(form_text(b, WordForm::Short)) == spec_parse(bit_spec_text(b)),
{
    let s = form_text(b, WordForm::Short);
    lemma_text_at_whole(s);
    lemma_bit_spec_form(s, 0, b, WordForm::Short);
    law_word_index_defaults_to_zero(b);
    law_parse_to_string(b);
}

/// The text of a dependent or variable repeat written with the condition
/// `<` and one more than its limit, as it follows a bit specification's
/// words; other repeats as the printer writes them.
pub open spec fn lt_repeat_tail(r: RepeatV) -> Seq<char> {
    match r {
        RepeatV::Dependent { bit_spec, limit } => seq![';', '('] + bit_spec_text(*bit_spec)
            + seq![')', '<'] + dec((limit + 1) as nat),
        RepeatV::Variable { limit } => seq![';', '<'] + dec((limit + 1) as nat),
        _ => repeat_tail(r),
    }
}

/// A bit specification written with its repeat's limit given by `<`.
pub open spec fn lt_text(b: BitSpecV) -> Seq<char> {
    word_text(b.start) + end_tail(b.end) + lt_repeat_tail(b.repeat)
}

/// Whether a repeat has a limit that a `<` condition can give: it is a
/// dependent or a variable repeat whose limit plus one fits in a `u16`.
pub open spec fn lt_writable(r: RepeatV) -> bool {
    match r {
        RepeatV::Dependent { limit, .. } => limit < u16::MAX,
        RepeatV::Variable { limit } => limit < u16::MAX,
        _ => false,
    }
}

/// `;<n` reads back as a variable repeat with the limit `n - 1`, and
/// `;(b)<n` as a dependent repeat with that limit, given that `b` reads back
/// as itself.
proof fn lemma_repeat_lt(s: Seq<char>, p: int, r: RepeatV)
    requires
        lt_writable(r),
        wf_repeat(r),
        text_at(s, p, lt_repeat_tail(r)),
        closes(s, p + lt_repeat_tail(r).len()),
        r matches RepeatV::Dependent { bit_spec, .. } ==> spec_bit_spec(s, p + 2) == Scan::Found(
            *bit_spec,
            p + 2 + bit_spec_text(*bit_spec).len(),
        ),
    ensures
        repeat_after(s, p, inner_at(s, p)) == Scan::Found(r, p + lt_repeat_tail(r).len()),
{
    match r {
        RepeatV::Variable { limit } => {
            let d = dec((limit + 1) as nat);
            lemma_dec((limit + 1) as nat);
            lemma_text_at_split(s, p, seq![';', '<'], d);
            lemma_text_at_index(s, p, seq![';', '<'], 0);
            lemma_text_at_index(s, p, seq![';', '<'], 1);
            lemma_text_at_index(s, p + 2, d, 0);
            assert(spec_condition(s, p + 1) == Some((crate::bit_spec::Condition::Lt, p + 2)));
            lemma_index_of_dec(s, p + 2, (limit + 1) as nat);
            assert(dependent_repeat_after(s, p + 1, inner_at(s, p)) is Miss);
        },
        RepeatV::Dependent { bit_spec, limit } => {
            let ti = bit_spec_text(*bit_spec);
            let d = dec((limit + 1) as nat);
            lemma_dec((limit + 1) as nat);
            assert(lt_repeat_tail(r) == seq![';', '('] + ti + seq![')', '<'] + d);
            lemma_text_at_split(s, p, seq![';', '('] + ti + seq![')', '<'], d);
            lemma_text_at_split(s, p, seq![';', '('] + ti, seq![')', '<']);
            lemma_text_at_split(s, p, seq![';', '('], ti);
            lemma_text_at_index(s, p, seq![';', '('], 0);
            lemma_text_at_index(s, p, seq![';', '('], 1);
            let q = p + 2 + ti.len();
            lemma_text_at_index(s, q, seq![')', '<'], 0);
            lemma_text_at_index(s, q, seq![')', '<'], 1);
            lemma_text_at_index(s, q + 2, d, 0);
            assert(spec_condition(s, q + 1) == Some((crate::bit_spec::Condition::Lt, q + 2)));
            lemma_index_of_dec(s, q + 2, (limit + 1) as nat);
        },
        _ => {},
    }
}

/// A bit specification written with a `<` limit reads back as itself when
/// the text ends after it or a `)` follows.
#[verifier::spinoff_prover]
#[verifier::rlimit(40)]
proof fn lemma_lt_at(s: Seq<char>, i: int, b: BitSpecV)
    requires
        wf_bit_spec(b),
        lt_writable(b.repeat),
        text_at(s, i, lt_text(b)),
        closes(s, i + lt_text(b).len()),
    ensures
        spec_bit_spec(s, i) == Scan::Found(b, i + lt_text(b).len()),
{
    let tw = word_text(b.start);
    let te = end_tail(b.end);
    let tr = lt_repeat_tail(b.repeat);
    let j = i + tw.len();
    let p = j + te.len();
    lemma_text_at_split(s, i, tw + te, tr);
    lemma_text_at_split(s, i, tw, te);
    lemma_text_at_index(s, p, tr, 0);
    if te.len() > 0 {
        lemma_text_at_index(s, j, te, 0);
    }
    lemma_word_form(s, i, b.start, WordForm::Full);
    lemma_end_tail(s, j, b.end);
    match b.repeat {
        RepeatV::Dependent { bit_spec, limit } => {
            let ti = bit_spec_text(*bit_spec);
            let d = dec((limit + 1) as nat);
            assert(tr == seq![';', '('] + ti + (seq![')', '<'] + d));
            lemma_text_at_split(s, p, seq![';', '('] + ti, seq![')', '<'] + d);
            lemma_text_at_split(s, p, seq![';', '('], ti);
            lemma_text_at_index(s, p + 2 + ti.len(), seq![')', '<'] + d, 0);
            lemma_bit_spec_text(s, p + 2, *bit_spec);
        },
        _ => {},
    }
    lemma_repeat_lt(s, p, b.repeat);
}

/// Law: a limit given with `<` is one less than the number written; a
/// dependent or variable repeat written with `<` and one more than its limit
/// parses to the same bit specification as the one written with `<=` (so
/// `3[];(2[])<49` means `3[];(2[])<=48`).
pub proof fn law_lt_limit_is_one_less(b: BitSpecV)
    requires
        wf_bit_spec(b),
        lt_writable(b.repeat),
    ensures
        !parse_underflows(lt_text(b)),
        spec_parse(lt_text(b)) == Ok::<BitSpecV, Error>(b),
        spec_parse(lt_text(b)) == spec_parse(bit_spec_text(b)),
{
    law_parse_to_string(b);
    lemma_text_at_whole(lt_text(b));
    lemma_lt_at(lt_text(b), 0, b);
}

} // verus!
