//! What the parser reads is well formed: every number fits where the grammar
//! reads it and every literal has the form it keeps. So whatever it reads
//! prints back to a text that it reads the same way.

use vstd::prelude::*;

use crate::bit_spec::BitSpecV;
use crate::parser::{
    at, binary_end, bits_end, hex_end, is_bin, is_hex_char, lemma_bits_end, lemma_hex_end,
    lemma_index_advances, lemma_opt_end_advances, lemma_word_advances, parse_underflows,
    spec_bit_spec, spec_literal, spec_opt_end, spec_opt_index, spec_parse, spec_word, Error, Scan,
};
use crate::round_trip::{law_parse_to_string, wf_binary_digits, wf_bit_spec, wf_literal, wf_word};
use crate::text::bit_spec_text;

verus! {

/// The characters of a run of hexadecimal literal characters are such
/// characters.
proof fn lemma_hex_run(s: Seq<char>, i: int)
    requires
        0 <= i <= s.len(),
    ensures
        forall|k: int| i <= k < hex_end(s, i) ==> is_hex_char(#[trigger] s[k]),
    decreases s.len() - i,
{
    if i < s.len() && is_hex_char(s[i]) {
        lemma_hex_run(s, i + 1);
    }
}

/// The characters of a run of binary digits are binary digits.
proof fn lemma_bits_run(s: Seq<char>, i: int)
    requires
        0 <= i <= s.len(),
    ensures
        forall|k: int| i <= k < bits_end(s, i) ==> is_bin(#[trigger] s[k]),
    decreases s.len() - i,
{
    if i < s.len() && is_bin(s[i]) {
        lemma_bits_run(s, i + 1);
    }
}

/// A binary number that is well formed up to the end `p` of one of its runs
/// stays well formed up to its end.
proof fn lemma_binary_run(s: Seq<char>, i: int, p: int)
    requires
        0 <= i < p <= s.len(),
        wf_binary_digits(s.subrange(i, p)),
    ensures
        wf_binary_digits(s.subrange(i, binary_end(s, p))),
    decreases s.len() - p,
{
    if at(s, p, '_') && p + 1 < s.len() && is_bin(s[p + 1]) {
        lemma_bits_end(s, p + 1);
        lemma_bits_run(s, p + 1);
        let q = bits_end(s, p + 1);
        let before = s.subrange(i, p);
        let t = s.subrange(i, q);
        assert forall|k: int| 0 <= k < t.len() implies is_bin(#[trigger] t[k]) || (t[k] == '_' && k
            + 1 < t.len() && is_bin(t[k + 1])) by {
            if k < p - i {
                assert(t[k] == before[k]);
                if !is_bin(before[k]) {
                    assert(k + 1 < before.len() && is_bin(before[k + 1]));
                    assert(t[k + 1] == before[k + 1]);
                }
            } else if k == p - i {
                assert(t[k + 1] == s[p + 1]);
            } else {
                assert(t[k] == s[i + k]);
            }
        }
        assert(t[0] == before[0]);
        lemma_binary_run(s, i, q);
    }
}

/// A literal that the parser reads has the form it keeps.
proof fn lemma_literal_wf(s: Seq<char>, i: int)
    requires
        0 <= i <= s.len(),
    ensures
        spec_literal(s, i) matches Some((l, _)) ==> wf_literal(l),
{
    if at(s, i, '0') && i + 2 <= s.len() {
        lemma_hex_end(s, i + 2);
        lemma_hex_run(s, i + 2);
        let k = hex_end(s, i + 2);
        let h = seq!['0', 'x'] + s.subrange(i + 2, k);
        assert(h.subrange(2, h.len() as int) =~= s.subrange(i + 2, k));
        lemma_bits_end(s, i + 2);
        lemma_bits_run(s, i + 2);
        let j = bits_end(s, i + 2);
        if j > i + 2 {
            assert(wf_binary_digits(s.subrange(i + 2, j)));
            lemma_binary_run(s, i + 2, j);
            let e = binary_end(s, j);
            let b = seq!['0', 'b'] + s.subrange(i + 2, e);
            assert(b.subrange(2, b.len() as int) =~= s.subrange(i + 2, e));
        }
    }
}

/// A word that the parser reads is well formed.
proof fn lemma_word_wf(s: Seq<char>, i: int)
    requires
        0 <= i <= s.len(),
    ensures
        spec_word(s, i) matches Some((w, _)) ==> wf_word(w),
{
    lemma_index_advances(s, i);
    let j = spec_opt_index(s, i).1;
    if at(s, j, '[') {
        lemma_literal_wf(s, j + 1);
    }
}

/// A bit specification that the parser reads is well formed.
proof fn lemma_bit_spec_wf(s: Seq<char>, i: int)
    requires
        0 <= i <= s.len(),
    ensures
        spec_bit_spec(s, i) matches Scan::Found(b, _) ==> wf_bit_spec(b),
    decreases s.len() - i,
{
    if let Some((start, j)) = spec_word(s, i) {
        lemma_word_advances(s, i);
        lemma_word_wf(s, i);
        lemma_opt_end_advances(s, j);
        if at(s, j, '.') && at(s, j + 1, '.') {
            lemma_word_wf(s, j + 2);
        }
        let p = spec_opt_end(s, j).1;
        if at(s, p, ';') && at(s, p + 1, '(') {
            lemma_bit_spec_wf(s, p + 2);
        }
    }
}

/// Law: whatever the parser reads is well formed, and `to_string` prints it
/// to a text that the parser reads as the same bit specification.
pub proof fn law_parsed_prints_back(s: Seq<char>, b: BitSpecV)
    requires
        spec_parse(s) == Ok::<BitSpecV, Error>(b),
    ensures
        wf_bit_spec(b),
        !parse_underflows(bit_spec_text(b)),
        spec_parse(bit_spec_text(b)) == Ok::<BitSpecV, Error>(b),
{
    lemma_bit_spec_wf(s, 0);
    law_parse_to_string(b);
}

} // verus!
