//! The order of bit specifications, in which generated code lists the fields
//! of a structure: by start word, then end word, then repeat, each compared
//! as `derive(Ord)` compares them (variants in declaration order, then their
//! fields in turn).
//!
//! A specification is ordered by a key, a sequence of numbers compared
//! lexicographically: each variant writes its position among its enum's
//! variants and then its fields, and a text writes its characters, each one
//! up, and a closing zero, so that a text that is a prefix of another comes
//! first.

use vstd::prelude::*;
use vstd::string::*;

use crate::text::same_text;
use crate::bit_spec::{
    BitRange, BitRangeV, BitSpec, BitSpecV, Repeat, RepeatV, Word, WordV,
};

verus! {

/// The key of a text: its characters, each one up, and a closing zero.
pub open spec fn text_key(s: Seq<char>) -> Seq<u64> {
    s.map_values(|c: char| ((c as u32) as u64 + 1) as u64) + seq![0u64]
}

/// The key of a bit range.
pub open spec fn range_key(r: BitRangeV) -> Seq<u64> {
    match r {
        BitRangeV::Single(p) => seq![0u64, p as u64],
        BitRangeV::Range(a, b) => seq![1u64, a as u64, b as u64],
        BitRangeV::WholeWord => seq![2u64],
        BitRangeV::Literal(l) => seq![3u64] + text_key(l),
    }
}

/// The key of a word.
pub open spec fn word_key(w: WordV) -> Seq<u64> {
    seq![w.index as u64] + range_key(w.bit_range)
}

/// The key of an optional word: a missing word comes first.
pub open spec fn opt_word_key(w: Option<WordV>) -> Seq<u64> {
    match w {
        None => seq![0u64],
        Some(w) => seq![1u64] + word_key(w),
    }
}

/// The key of a repeat.
pub open spec fn repeat_key(r: RepeatV) -> Seq<u64>
    decreases r,
{
    match r {
        RepeatV::Fixed { number } => seq![0u64, number as u64],
        RepeatV::Dependent { bit_spec, limit } => seq![1u64] + bit_spec_key(*bit_spec) + seq![
            limit as u64,
        ],
        RepeatV::Variable { limit } => seq![2u64, limit as u64],
        RepeatV::NoRepeat => seq![3u64],
    }
}

/// The key of a bit specification.
pub open spec fn bit_spec_key(b: BitSpecV) -> Seq<u64>
    decreases b,
{
    word_key(b.start) + opt_word_key(b.end) + repeat_key(b.repeat)
}

/// Whether key `a` comes before key `b` or equals it, lexicographically.
pub open spec fn key_le(a: Seq<u64>, b: Seq<u64>) -> bool
    decreases a.len(),
{
    if a.len() == 0 {
        true
    } else if b.len() == 0 {
        false
    } else if a[0] < b[0] {
        true
    } else if a[0] > b[0] {
        false
    } else {
        key_le(a.drop_first(), b.drop_first())
    }
}

/// Whether bit specification `a` comes before `b` or ranks with it.
pub open spec fn bit_spec_le(a: BitSpecV, b: BitSpecV) -> bool {
    key_le(bit_spec_key(a), bit_spec_key(b))
}

/// Of two keys, one comes before the other or equals it.
pub proof fn lemma_key_total(a: Seq<u64>, b: Seq<u64>)
    ensures
        key_le(a, b) || key_le(b, a),
    decreases a.len(),
{
    if a.len() > 0 && b.len() > 0 && a[0] == b[0] {
        lemma_key_total(a.drop_first(), b.drop_first());
    }
}

/// The order of keys is transitive.
pub proof fn lemma_key_transitive(a: Seq<u64>, b: Seq<u64>, c: Seq<u64>)
    requires
        key_le(a, b),
        key_le(b, c),
    ensures
        key_le(a, c),
    decreases a.len(),
{
    if a.len() > 0 && b.len() > 0 && c.len() > 0 && a[0] == b[0] && b[0] == c[0] {
        lemma_key_transitive(a.drop_first(), b.drop_first(), c.drop_first());
    }
}

/// Every key comes before or equals itself.
pub proof fn lemma_key_reflexive(a: Seq<u64>)
    ensures
        key_le(a, a),
    decreases a.len(),
{
    if a.len() > 0 {
        lemma_key_reflexive(a.drop_first());
    }
}

/// Any two bit specifications are ordered one way or the other, and the
/// order is reflexive and transitive.
proof fn lemma_bit_spec_preorder(a: BitSpecV, b: BitSpecV, c: BitSpecV)
    ensures
        bit_spec_le(a, a),
        bit_spec_le(a, b) || bit_spec_le(b, a),
        bit_spec_le(a, b) && bit_spec_le(b, c) ==> bit_spec_le(a, c),
{
    lemma_key_reflexive(bit_spec_key(a));
    lemma_key_total(bit_spec_key(a), bit_spec_key(b));
    if bit_spec_le(a, b) && bit_spec_le(b, c) {
        lemma_key_transitive(bit_spec_key(a), bit_spec_key(b), bit_spec_key(c));
    }
}

/// Keys that each come before or equal the other are equal.
pub proof fn lemma_key_antisymmetric(a: Seq<u64>, b: Seq<u64>)
    requires
        key_le(a, b),
        key_le(b, a),
    ensures
        a == b,
    decreases a.len(),
{
    if a.len() > 0 && b.len() > 0 {
        lemma_key_antisymmetric(a.drop_first(), b.drop_first());
        assert(a =~= seq![a[0]] + a.drop_first());
        assert(b =~= seq![b[0]] + b.drop_first());
    }
}

/// A key followed by more numbers, split at its first number.
proof fn lemma_split_first(k: Seq<u64>, t: Seq<u64>)
    requires
        k.len() > 0,
    ensures
        (k + t)[0] == k[0],
        (k + t).drop_first() == k.drop_first() + t,
{
    assert((k + t).drop_first() =~= k.drop_first() + t);
}

/// The key of a text with more numbers after it tells the text and what
/// follows apart.
proof fn lemma_text_key_prefix(s1: Seq<char>, s2: Seq<char>, t1: Seq<u64>, t2: Seq<u64>)
    requires
        text_key(s1) + t1 == text_key(s2) + t2,
    ensures
        s1 == s2,
        t1 == t2,
    decreases s1.len(),
{
    let f = |c: char| ((c as u32) as u64 + 1) as u64;
    let k1 = text_key(s1);
    let k2 = text_key(s2);
    assert(k1[0] == (k1 + t1)[0]);
    assert(k2[0] == (k2 + t2)[0]);
    if s1.len() == 0 {
        assert(k1 =~= seq![0u64]);
        if s2.len() > 0 {
            assert(k2[0] == f(s2[0]));
        }
        assert(k2 =~= seq![0u64]);
        assert(t1 =~= (k1 + t1).drop_first());
        assert(t2 =~= (k2 + t2).drop_first());
    } else {
        assert(k1[0] == f(s1[0]));
        if s2.len() == 0 {
            assert(k2[0] == 0);
        }
        assert(k2[0] == f(s2[0]));
        assert((s1[0] as u32) == (s2[0] as u32));
        vstd::utf8::char_u32_cast(s1[0], s1[0] as u32);
        vstd::utf8::char_u32_cast(s2[0], s2[0] as u32);
        assert(s1[0] == s2[0]);
        assert(k1 =~= seq![f(s1[0])] + text_key(s1.drop_first()));
        assert(k2 =~= seq![f(s2[0])] + text_key(s2.drop_first()));
        assert((k1 + t1).drop_first() =~= text_key(s1.drop_first()) + t1);
        assert((k2 + t2).drop_first() =~= text_key(s2.drop_first()) + t2);
        lemma_text_key_prefix(s1.drop_first(), s2.drop_first(), t1, t2);
        assert(s1 =~= seq![s1[0]] + s1.drop_first());
        assert(s2 =~= seq![s2[0]] + s2.drop_first());
    }
}

/// The key of a bit range with more numbers after it tells the range and
/// what follows apart.
proof fn lemma_range_key_prefix(a: BitRangeV, b: BitRangeV, t1: Seq<u64>, t2: Seq<u64>)
    requires
        range_key(a) + t1 == range_key(b) + t2,
    ensures
        a == b,
        t1 == t2,
{
    let ka = range_key(a);
    let kb = range_key(b);
    assert(ka[0] == (ka + t1)[0]);
    assert(kb[0] == (kb + t2)[0]);
    match a {
        BitRangeV::Literal(l) => {
            let m = b->Literal_0;
            assert((ka + t1).drop_first() =~= text_key(l) + t1);
            assert((kb + t2).drop_first() =~= text_key(m) + t2);
            lemma_text_key_prefix(l, m, t1, t2);
        },
        _ => {
            assert((ka + t1).subrange(ka.len() as int, (ka + t1).len() as int) =~= t1);
            assert((kb + t2).subrange(kb.len() as int, (kb + t2).len() as int) =~= t2);
            assert(forall|i: int| 0 <= i < ka.len() ==> (ka + t1)[i] == ka[i]);
            assert(forall|i: int| 0 <= i < kb.len() ==> (kb + t2)[i] == kb[i]);
        },
    }
}

/// The key of a word with more numbers after it tells the word and what
/// follows apart.
proof fn lemma_word_key_prefix(a: WordV, b: WordV, t1: Seq<u64>, t2: Seq<u64>)
    requires
        word_key(a) + t1 == word_key(b) + t2,
    ensures
        a == b,
        t1 == t2,
{
    let ka = word_key(a);
    let kb = word_key(b);
    assert(ka[0] == (ka + t1)[0]);
    assert(kb[0] == (kb + t2)[0]);
    assert((ka + t1).drop_first() =~= range_key(a.bit_range) + t1);
    assert((kb + t2).drop_first() =~= range_key(b.bit_range) + t2);
    lemma_range_key_prefix(a.bit_range, b.bit_range, t1, t2);
}

/// The key of an optional word with more numbers after it tells the word
/// and what follows apart.
proof fn lemma_opt_word_key_prefix(a: Option<WordV>, b: Option<WordV>, t1: Seq<u64>, t2: Seq<u64>)
    requires
        opt_word_key(a) + t1 == opt_word_key(b) + t2,
    ensures
        a == b,
        t1 == t2,
{
    let ka = opt_word_key(a);
    let kb = opt_word_key(b);
    assert(ka[0] == (ka + t1)[0]);
    assert(kb[0] == (kb + t2)[0]);
    match a {
        None => {
            assert(b is None);
            assert(t1 =~= (ka + t1).drop_first());
            assert(t2 =~= (kb + t2).drop_first());
        },
        Some(w) => {
            let v = b->Some_0;
            assert((ka + t1).drop_first() =~= word_key(w) + t1);
            assert((kb + t2).drop_first() =~= word_key(v) + t2);
            lemma_word_key_prefix(w, v, t1, t2);
        },
    }
}

/// The key of a repeat with more numbers after it tells the repeat and what
/// follows apart.
proof fn lemma_repeat_key_prefix(a: RepeatV, b: RepeatV, t1: Seq<u64>, t2: Seq<u64>)
    requires
        repeat_key(a) + t1 == repeat_key(b) + t2,
    ensures
        a == b,
        t1 == t2,
    decreases a,
{
    let ka = repeat_key(a);
    let kb = repeat_key(b);
    assert(ka[0] == (ka + t1)[0]);
    assert(kb[0] == (kb + t2)[0]);
    match a {
        RepeatV::Dependent { bit_spec: c, limit: l } => {
            let d = b->Dependent_bit_spec;
            let m = b->Dependent_limit;
            assert((ka + t1).drop_first() =~= bit_spec_key(*c) + (seq![l as u64] + t1));
            assert((kb + t2).drop_first() =~= bit_spec_key(*d) + (seq![m as u64] + t2));
            lemma_bit_spec_key_prefix(*c, *d, seq![l as u64] + t1, seq![m as u64] + t2);
            assert((seq![l as u64] + t1)[0] == (seq![m as u64] + t2)[0]);
            assert((seq![l as u64] + t1).drop_first() =~= t1);
            assert((seq![m as u64] + t2).drop_first() =~= t2);
        },
        _ => {
            assert((ka + t1).subrange(ka.len() as int, (ka + t1).len() as int) =~= t1);
            assert((kb + t2).subrange(kb.len() as int, (kb + t2).len() as int) =~= t2);
            assert(forall|i: int| 0 <= i < ka.len() ==> (ka + t1)[i] == ka[i]);
            assert(forall|i: int| 0 <= i < kb.len() ==> (kb + t2)[i] == kb[i]);
        },
    }
}

/// The key of a bit specification with more numbers after it tells the
/// specification and what follows apart.
proof fn lemma_bit_spec_key_prefix(a: BitSpecV, b: BitSpecV, t1: Seq<u64>, t2: Seq<u64>)
    requires
        bit_spec_key(a) + t1 == bit_spec_key(b) + t2,
    ensures
        a == b,
        t1 == t2,
    decreases a,
{
    let ra = opt_word_key(a.end) + repeat_key(a.repeat);
    let rb = opt_word_key(b.end) + repeat_key(b.repeat);
    assert(bit_spec_key(a) + t1 =~= word_key(a.start) + (ra + t1));
    assert(bit_spec_key(b) + t2 =~= word_key(b.start) + (rb + t2));
    lemma_word_key_prefix(a.start, b.start, ra + t1, rb + t2);
    assert(ra + t1 =~= opt_word_key(a.end) + (repeat_key(a.repeat) + t1));
    assert(rb + t2 =~= opt_word_key(b.end) + (repeat_key(b.repeat) + t2));
    lemma_opt_word_key_prefix(a.end, b.end, repeat_key(a.repeat) + t1, repeat_key(b.repeat) + t2);
    lemma_repeat_key_prefix(a.repeat, b.repeat, t1, t2);
}

/// Law: the order of bit specifications is a total order: every
/// specification ranks with itself, any two are ordered one way or the
/// other, the order is transitive, and two specifications that rank
/// together are the same.
pub proof fn law_bit_spec_total_order(a: BitSpecV, b: BitSpecV, c: BitSpecV)
    ensures
        bit_spec_le(a, a),
        bit_spec_le(a, b) || bit_spec_le(b, a),
        bit_spec_le(a, b) && bit_spec_le(b, c) ==> bit_spec_le(a, c),
        bit_spec_le(a, b) && bit_spec_le(b, a) ==> a == b,
{
    lemma_bit_spec_preorder(a, b, c);
    if bit_spec_le(a, b) && bit_spec_le(b, a) {
        lemma_key_antisymmetric(bit_spec_key(a), bit_spec_key(b));
        assert(bit_spec_key(a) + Seq::<u64>::empty() =~= bit_spec_key(b) + Seq::<u64>::empty());
        lemma_bit_spec_key_prefix(a, b, Seq::empty(), Seq::empty());
    }
}

/// Whether bit specification `a` comes strictly before `b`.
pub open spec fn bit_spec_lt(a: BitSpecV, b: BitSpecV) -> bool {
    bit_spec_le(a, b) && !bit_spec_le(b, a)
}

/// Keys with a common beginning compare as what follows it.
proof fn lemma_key_common_prefix(p: Seq<u64>, s: Seq<u64>, t: Seq<u64>)
    ensures
        key_le(p + s, p + t) == key_le(s, t),
    decreases p.len(),
{
    if p.len() == 0 {
        assert(p + s =~= s);
        assert(p + t =~= t);
    } else {
        assert((p + s).drop_first() =~= p.drop_first() + s);
        assert((p + t).drop_first() =~= p.drop_first() + t);
        assert((p + s)[0] == p[0]);
        assert((p + t)[0] == p[0]);
        lemma_key_common_prefix(p.drop_first(), s, t);
    }
}

/// After a common beginning, the key with the smaller number comes first.
proof fn lemma_key_lt_after(p: Seq<u64>, x: u64, y: u64, s: Seq<u64>, t: Seq<u64>)
    requires
        x < y,
    ensures
        key_le(p + (seq![x] + s), p + (seq![y] + t)),
        !key_le(p + (seq![y] + t), p + (seq![x] + s)),
{
    lemma_key_common_prefix(p, seq![x] + s, seq![y] + t);
    lemma_key_common_prefix(p, seq![y] + t, seq![x] + s);
    assert((seq![x] + s)[0] == x);
    assert((seq![y] + t)[0] == y);
}

/// The rank of a bit range's variant, in declaration order.
pub open spec fn bit_range_rank(r: BitRangeV) -> int {
    match r {
        BitRangeV::Single(_) => 0,
        BitRangeV::Range(_, _) => 1,
        BitRangeV::WholeWord => 2,
        BitRangeV::Literal(_) => 3,
    }
}

/// Specifications with smaller start word indexes come first.
proof fn lemma_order_by_start_index(a: BitSpecV, b: BitSpecV)
    requires
        a.start.index < b.start.index,
    ensures
        bit_spec_lt(a, b),
{
    let ra = range_key(a.start.bit_range) + (opt_word_key(a.end) + repeat_key(a.repeat));
    let rb = range_key(b.start.bit_range) + (opt_word_key(b.end) + repeat_key(b.repeat));
    let ia = a.start.index as u64;
    let ib = b.start.index as u64;
    assert(bit_spec_key(a) =~= Seq::<u64>::empty() + (seq![ia] + ra));
    assert(bit_spec_key(b) =~= Seq::<u64>::empty() + (seq![ib] + rb));
    lemma_key_lt_after(Seq::empty(), ia, ib, ra, rb);
}

/// In one start word, bit ranges are ordered by their variant and then by
/// their bits.
#[verifier::rlimit(30)]
proof fn lemma_order_in_start_word(a: BitSpecV, b: BitSpecV)
    requires
        a.start.index == b.start.index,
    ensures
        bit_range_rank(a.start.bit_range) < bit_range_rank(b.start.bit_range) ==> bit_spec_lt(a, b),
        a.start.bit_range matches BitRangeV::Single(p) ==> (b.start.bit_range matches BitRangeV::Single(
            q,
        ) ==> (p < q ==> bit_spec_lt(a, b))),
        a.start.bit_range matches BitRangeV::Range(p1, p2) ==> (b.start.bit_range matches BitRangeV::Range(
            q1,
            q2,
        ) ==> (p1 < q1 || (p1 == q1 && p2 < q2) ==> bit_spec_lt(a, b))),
{
    let ra = opt_word_key(a.end) + repeat_key(a.repeat);
    let rb = opt_word_key(b.end) + repeat_key(b.repeat);
    let ka = bit_spec_key(a);
    let kb = bit_spec_key(b);
    let pre = seq![a.start.index as u64];
    assert(ka =~= pre + (range_key(a.start.bit_range) + ra));
    assert(kb =~= pre + (range_key(b.start.bit_range) + rb));
    if bit_range_rank(a.start.bit_range) < bit_range_rank(b.start.bit_range) {
        let xa = range_key(a.start.bit_range).drop_first() + ra;
        let xb = range_key(b.start.bit_range).drop_first() + rb;
        let va = range_key(a.start.bit_range)[0];
        let vb = range_key(b.start.bit_range)[0];
        assert(range_key(a.start.bit_range) + ra =~= seq![va] + xa);
        assert(range_key(b.start.bit_range) + rb =~= seq![vb] + xb);
        lemma_key_lt_after(pre, va, vb, xa, xb);
    }
    match (a.start.bit_range, b.start.bit_range) {
        (BitRangeV::Single(p), BitRangeV::Single(q)) => {
            if p < q {
                assert(ka =~= (pre + seq![0u64]) + (seq![p as u64] + ra));
                assert(kb =~= (pre + seq![0u64]) + (seq![q as u64] + rb));
                lemma_key_lt_after(pre + seq![0u64], p as u64, q as u64, ra, rb);
            }
        },
        (BitRangeV::Range(p1, p2), BitRangeV::Range(q1, q2)) => {
            if p1 < q1 {
                assert(ka =~= (pre + seq![1u64]) + (seq![p1 as u64] + (seq![p2 as u64] + ra)));
                assert(kb =~= (pre + seq![1u64]) + (seq![q1 as u64] + (seq![q2 as u64] + rb)));
                lemma_key_lt_after(
                    pre + seq![1u64],
                    p1 as u64,
                    q1 as u64,
                    seq![p2 as u64] + ra,
                    seq![q2 as u64] + rb,
                );
            } else if p1 == q1 && p2 < q2 {
                assert(ka =~= (pre + seq![1u64, p1 as u64]) + (seq![p2 as u64] + ra));
                assert(kb =~= (pre + seq![1u64, q1 as u64]) + (seq![q2 as u64] + rb));
                lemma_key_lt_after(pre + seq![1u64, p1 as u64], p2 as u64, q2 as u64, ra, rb);
            }
        },
        _ => {},
    }
}

/// With the same start word, a specification without an end word comes
/// first, and end words are ordered by their index.
#[verifier::rlimit(30)]
proof fn lemma_order_by_end(a: BitSpecV, b: BitSpecV)
    requires
        a.start == b.start,
    ensures
        a.end is None && b.end is Some ==> bit_spec_lt(a, b),
        a.end matches Some(x) ==> (b.end matches Some(y) ==> (x.index < y.index ==> bit_spec_lt(
            a,
            b,
        ))),
{
    let pre = word_key(a.start);
    let ka = bit_spec_key(a);
    let kb = bit_spec_key(b);
    assert(ka =~= pre + (opt_word_key(a.end) + repeat_key(a.repeat)));
    assert(kb =~= pre + (opt_word_key(b.end) + repeat_key(b.repeat)));
    match (a.end, b.end) {
        (None, Some(y)) => {
            assert(opt_word_key(a.end) + repeat_key(a.repeat) =~= seq![0u64] + repeat_key(
                a.repeat,
            ));
            assert(opt_word_key(b.end) + repeat_key(b.repeat) =~= seq![1u64] + (word_key(y)
                + repeat_key(b.repeat)));
            lemma_key_lt_after(
                pre,
                0u64,
                1u64,
                repeat_key(a.repeat),
                word_key(y) + repeat_key(b.repeat),
            );
        },
        (Some(x), Some(y)) => {
            if x.index < y.index {
                let p2 = pre + seq![1u64];
                let ta = range_key(x.bit_range) + repeat_key(a.repeat);
                let tb = range_key(y.bit_range) + repeat_key(b.repeat);
                assert(ka =~= p2 + (seq![x.index as u64] + ta));
                assert(kb =~= p2 + (seq![y.index as u64] + tb));
                lemma_key_lt_after(p2, x.index as u64, y.index as u64, ta, tb);
            }
        },
        _ => {},
    }
}

/// Law: bit specifications are ordered as `derive(Ord)` orders them: first
/// by the index of their start word; in one start word, single bits by
/// their position, ranges by their first and then last bit, and single bits
/// before ranges, ranges before whole words, whole words before literals;
/// with the same start word, one without an end word comes first, and end
/// words are ordered by their index.
pub proof fn law_bit_spec_order(a: BitSpecV, b: BitSpecV)
    ensures
        a.start.index < b.start.index ==> bit_spec_lt(a, b),
        a.start.index == b.start.index && bit_range_rank(a.start.bit_range) < bit_range_rank(
            b.start.bit_range,
        ) ==> bit_spec_lt(a, b),
        a.start.index == b.start.index ==> (a.start.bit_range matches BitRangeV::Single(p) ==> (
        b.start.bit_range matches BitRangeV::Single(q) ==> (p < q ==> bit_spec_lt(a, b)))),
        a.start.index == b.start.index ==> (a.start.bit_range matches BitRangeV::Range(p1, p2) ==> (
        b.start.bit_range matches BitRangeV::Range(q1, q2) ==> (p1 < q1 || (p1 == q1 && p2 < q2)
            ==> bit_spec_lt(a, b)))),
        a.start == b.start && a.end is None && b.end is Some ==> bit_spec_lt(a, b),
        a.start == b.start ==> (a.end matches Some(x) ==> (b.end matches Some(y) ==> (x.index
            < y.index ==> bit_spec_lt(a, b)))),
{
    if a.start.index < b.start.index {
        lemma_order_by_start_index(a, b);
    }
    if a.start.index == b.start.index {
        lemma_order_in_start_word(a, b);
    }
    if a.start == b.start {
        lemma_order_by_end(a, b);
    }
}

/// Appends the key of a text.
fn push_text_key(out: &mut Vec<u64>, s: &str)
    ensures
        final(out)@ == old(out)@ + text_key(s@),
{
    let n = s.unicode_len();
    let mut i: usize = 0;
    let ghost start = out@;
    while i < n
        invariant
            n == s@.len(),
            0 <= i <= n,
            out@ == start + s@.take(i as int).map_values(
                |c: char| ((c as u32) as u64 + 1) as u64,
            ),
        decreases n - i,
    {
        let c = s.get_char(i);
        out.push((c as u32) as u64 + 1);
        assert(s@.take(i + 1).map_values(|c: char| ((c as u32) as u64 + 1) as u64) =~= s@.take(
            i as int,
        ).map_values(|c: char| ((c as u32) as u64 + 1) as u64).push(((c as u32) as u64 + 1) as u64));
        i = i + 1;
    }
    assert(s@.take(n as int) =~= s@);
    out.push(0);
    assert(out@ =~= start + text_key(s@));
}

/// Appends the key of a bit range.
fn push_range_key(out: &mut Vec<u64>, r: &BitRange)
    ensures
        final(out)@ == old(out)@ + range_key(r@),
{
    let ghost start = out@;
    match r {
        BitRange::Single(p) => {
            out.push(0);
            out.push(*p as u64);
        },
        BitRange::Range(a, b) => {
            out.push(1);
            out.push(*a as u64);
            out.push(*b as u64);
        },
        BitRange::WholeWord => {
            out.push(2);
        },
        BitRange::Literal(l) => {
            out.push(3);
            push_text_key(out, l.as_str());
        },
    }
    assert(out@ =~= start + range_key(r@));
}

/// Appends the key of a word.
fn push_word_key(out: &mut Vec<u64>, w: &Word)
    ensures
        final(out)@ == old(out)@ + word_key(w@),
{
    let ghost start = out@;
    out.push(w.index as u64);
    push_range_key(out, &w.bit_range);
    assert(out@ =~= start + word_key(w@));
}

/// Appends the key of a bit specification.
fn push_bit_spec_key(out: &mut Vec<u64>, b: &BitSpec)
    ensures
        final(out)@ == old(out)@ + bit_spec_key(b@),
    decreases b,
{
    let ghost start = out@;
    push_word_key(out, &b.start);
    let ghost after_start = out@;
    match &b.end {
        None => {
            out.push(0);
        },
        Some(w) => {
            out.push(1);
            push_word_key(out, w);
        },
    }
    assert(out@ =~= after_start + crate::generator::order::opt_word_key(b@.end));
    let ghost after_end = out@;
    match &b.repeat {
        Repeat::Fixed { number } => {
            out.push(0);
            out.push(*number as u64);
        },
        Repeat::Dependent { bit_spec, limit } => {
            out.push(1);
            push_bit_spec_key(out, bit_spec);
            out.push(*limit as u64);
        },
        Repeat::Variable { limit } => {
            out.push(2);
            out.push(*limit as u64);
        },
        Repeat::NoRepeat => {
            out.push(3);
        },
    }
    assert(out@ =~= after_end + repeat_key(b@.repeat));
    assert(out@ =~= start + bit_spec_key(b@));
}

/// Whether two bit ranges are the same.
fn same_bit_range(a: &BitRange, b: &BitRange) -> (r: bool)
    ensures
        r == (a@ == b@),
{
    match (a, b) {
        (BitRange::Single(p), BitRange::Single(q)) => *p == *q,
        (BitRange::Range(p1, p2), BitRange::Range(q1, q2)) => *p1 == *q1 && *p2 == *q2,
        (BitRange::WholeWord, BitRange::WholeWord) => true,
        (BitRange::Literal(l), BitRange::Literal(m)) => same_text(l.as_str(), m.as_str()),
        _ => false,
    }
}

/// Whether two words are the same.
fn same_word(a: &Word, b: &Word) -> (r: bool)
    ensures
        r == (a@ == b@),
{
    a.index == b.index && same_bit_range(&a.bit_range, &b.bit_range)
}

/// Whether two bit specifications are the same.
pub fn same_bit_spec(a: &BitSpec, b: &BitSpec) -> (r: bool)
    ensures
        r == (a@ == b@),
    decreases a,
{
    if !same_word(&a.start, &b.start) {
        return false;
    }
    let ends = match (&a.end, &b.end) {
        (None, None) => true,
        (Some(v), Some(w)) => same_word(v, w),
        _ => false,
    };
    if !ends {
        return false;
    }
    match (&a.repeat, &b.repeat) {
        (Repeat::Fixed { number: m }, Repeat::Fixed { number: n }) => *m == *n,
        (
            Repeat::Dependent { bit_spec: c, limit: l },
            Repeat::Dependent { bit_spec: d, limit: k },
        ) => *l == *k && same_bit_spec(c, d),
        (Repeat::Variable { limit: l }, Repeat::Variable { limit: k }) => *l == *k,
        (Repeat::NoRepeat, Repeat::NoRepeat) => true,
        _ => false,
    }
}

/// The key of a bit specification.
pub fn bit_spec_key_of(b: &BitSpec) -> (r: Vec<u64>)
    ensures
        r@ == bit_spec_key(b@),
{
    let mut out: Vec<u64> = Vec::new();
    push_bit_spec_key(&mut out, b);
    assert(out@ =~= bit_spec_key(b@));
    out
}

/// Whether key `a` comes before key `b` or equals it.
pub fn keys_le(a: &Vec<u64>, b: &Vec<u64>) -> (r: bool)
    ensures
        r == key_le(a@, b@),
{
    let mut i: usize = 0;
    assert(a@.skip(0) =~= a@);
    assert(b@.skip(0) =~= b@);
    while i < a.len()
        invariant
            0 <= i <= a@.len(),
            i <= b@.len(),
            a@.subrange(0, i as int) == b@.subrange(0, i as int),
            key_le(a@, b@) == key_le(a@.skip(i as int), b@.skip(i as int)),
        decreases a@.len() - i,
    {
        if i >= b.len() {
            assert(b@.skip(i as int).len() == 0);
            return false;
        }
        let x = a[i];
        let y = b[i];
        assert(a@.skip(i as int)[0] == x);
        assert(b@.skip(i as int)[0] == y);
        if x < y {
            return true;
        }
        if x > y {
            return false;
        }
        assert(a@.skip(i as int).drop_first() =~= a@.skip(i + 1));
        assert(b@.skip(i as int).drop_first() =~= b@.skip(i + 1));
        assert(a@.subrange(0, i + 1) =~= a@.subrange(0, i as int).push(x));
        assert(b@.subrange(0, i + 1) =~= b@.subrange(0, i as int).push(y));
        i = i + 1;
    }
    assert(a@.skip(i as int).len() == 0);
    true
}

/// Whether bit specification `a` comes before `b` or ranks with it.
pub fn bit_spec_le_exec(a: &BitSpec, b: &BitSpec) -> (r: bool)
    ensures
        r == bit_spec_le(a@, b@),
{
    let ka = bit_spec_key_of(a);
    let kb = bit_spec_key_of(b);
    keys_le(&ka, &kb)
}

/// Whether the positions `order` list the keys in order, each key coming
/// before or equal to every later one.
pub open spec fn keys_sorted(keys: Seq<Seq<u64>>, order: Seq<usize>) -> bool {
    forall|a: int, b: int|
        0 <= a < b < order.len() ==> key_le(
            #[trigger] keys[order[a] as int],
            #[trigger] keys[order[b] as int],
        )
}

/// Whether `order` lists each position below `n` once.
pub open spec fn is_ordering(order: Seq<usize>, n: int) -> bool {
    &&& order.len() == n
    &&& forall|a: int| 0 <= a < n ==> #[trigger] order[a] < n
    &&& forall|a: int, b: int| 0 <= a < b < n ==> #[trigger] order[a] != #[trigger] order[b]
}

/// Whether positions with keys that rank together keep their order.
pub open spec fn keeps_ties(keys: Seq<Seq<u64>>, order: Seq<usize>) -> bool {
    forall|a: int, b: int|
        0 <= a < b < order.len() && key_le(
            #[trigger] keys[order[b] as int],
            #[trigger] keys[order[a] as int],
        ) ==> order[a] < order[b]
}

/// Where key `x` goes among the positions `order`, searching from `p`: before
/// the first position whose key comes after it, or at the end.
pub open spec fn insert_position(keys: Seq<Seq<u64>>, order: Seq<usize>, x: int, p: int) -> int
    decreases order.len() - p,
{
    if 0 <= p < order.len() && key_le(keys[order[p] as int], keys[x]) {
        insert_position(keys, order, x, p + 1)
    } else {
        p
    }
}

/// The first `i` positions listed by the order of their keys, keys that
/// rank together in the order of their positions: each position in turn is
/// put after every earlier one whose key comes before it or equals it.
pub open spec fn sorted_prefix(keys: Seq<Seq<u64>>, i: nat) -> Seq<usize>
    decreases i,
{
    if i == 0 {
        Seq::empty()
    } else {
        let o = sorted_prefix(keys, (i - 1) as nat);
        o.insert(insert_position(keys, o, i - 1, 0), (i - 1) as usize)
    }
}

/// All positions listed by the order of their keys, keys that rank together
/// in the order of their positions.
pub open spec fn stable_order(keys: Seq<Seq<u64>>) -> Seq<usize> {
    sorted_prefix(keys, keys.len())
}

/// The positions of the keys, listed so that the keys are in order; keys
/// that rank together keep the order they had.
pub fn sort_keys(keys: &Vec<Vec<u64>>) -> (order: Vec<usize>)
    ensures
        order@ == stable_order(keys@.map_values(|k: Vec<u64>| k@)),
        is_ordering(order@, keys@.len() as int),
        keys_sorted(keys@.map_values(|k: Vec<u64>| k@), order@),
        keeps_ties(keys@.map_values(|k: Vec<u64>| k@), order@),
{
    let ghost ks = keys@.map_values(|k: Vec<u64>| k@);
    let n = keys.len();
    let mut order: Vec<usize> = Vec::new();
    let mut i: usize = 0;
    while i < n
        invariant
            n == keys@.len(),
            ks == keys@.map_values(|k: Vec<u64>| k@),
            0 <= i <= n,
            order@ == sorted_prefix(ks, i as nat),
            is_ordering(order@, i as int),
            keys_sorted(ks, order@),
            keeps_ties(ks, order@),
        decreases n - i,
    {
        let mut p: usize = 0;
        while p < order.len() && keys_le(&keys[order[p]], &keys[i])
            invariant
                n == keys@.len(),
                ks == keys@.map_values(|k: Vec<u64>| k@),
                i < n,
                is_ordering(order@, i as int),
                0 <= p <= order@.len(),
                forall|a: int| 0 <= a < p ==> key_le(#[trigger] ks[order@[a] as int], ks[i as int]),
                insert_position(ks, order@, i as int, 0) == insert_position(
                    ks,
                    order@,
                    i as int,
                    p as int,
                ),
            decreases order@.len() - p,
        {
            p = p + 1;
        }
        let ghost before = order@;
        proof {
            if p < before.len() {
                lemma_key_total(ks[i as int], ks[before[p as int] as int]);
            }
            assert(insert_position(ks, before, i as int, p as int) == p);
            assert(sorted_prefix(ks, (i + 1) as nat) == before.insert(p as int, i));
        }
        order.insert(p, i);
        proof {
            assert(order@ == before.insert(p as int, i));
            assert forall|a: int, b: int| 0 <= a < b < order@.len() implies key_le(
                #[trigger] ks[order@[a] as int],
                #[trigger] ks[order@[b] as int],
            ) by {
                if a < p && b < p {
                } else if a < p && b == p {
                } else if a < p && b > p {
                    assert(key_le(ks[before[a] as int], ks[before[b - 1] as int]));
                } else if a == p {
                    assert(key_le(ks[i as int], ks[before[p as int] as int]));
                    if b - 1 > p {
                        assert(key_le(ks[before[p as int] as int], ks[before[b - 1] as int]));
                        lemma_key_transitive(
                            ks[i as int],
                            ks[before[p as int] as int],
                            ks[before[b - 1] as int],
                        );
                    }
                } else {
                    assert(key_le(ks[before[a - 1] as int], ks[before[b - 1] as int]));
                }
            }
            assert forall|a: int, b: int|
                0 <= a < b < order@.len() && key_le(
                    #[trigger] ks[order@[b] as int],
                    #[trigger] ks[order@[a] as int],
                ) implies order@[a] < order@[b] by {
                if a < p && b < p {
                } else if b == p {
                } else if a < p && b > p {
                    assert(order@[b] == before[b - 1]);
                    assert(order@[a] == before[a]);
                } else if a == p {
                    assert(!key_le(ks[before[p as int] as int], ks[i as int]));
                    if b - 1 > p {
                        assert(key_le(ks[before[p as int] as int], ks[before[b - 1] as int]));
                        lemma_key_transitive(
                            ks[before[p as int] as int],
                            ks[before[b - 1] as int],
                            ks[i as int],
                        );
                    }
                } else {
                    assert(order@[b] == before[b - 1]);
                    assert(order@[a] == before[a - 1]);
                }
            }
            assert forall|a: int| 0 <= a < i + 1 implies #[trigger] order@[a] < i + 1 by {
                if a < p {
                    assert(order@[a] == before[a]);
                } else if a > p {
                    assert(order@[a] == before[a - 1]);
                }
            }
            assert forall|a: int, b: int| 0 <= a < b < i + 1 implies #[trigger] order@[a]
                != #[trigger] order@[b] by {
                if a < p && b < p {
                } else if a < p && b == p {
                    assert(order@[a] == before[a]);
                } else if a < p && b > p {
                    assert(order@[a] == before[a]);
                    assert(order@[b] == before[b - 1]);
                } else if a == p {
                    assert(order@[b] == before[b - 1]);
                } else {
                    assert(order@[a] == before[a - 1]);
                    assert(order@[b] == before[b - 1]);
                }
            }
        }
        i = i + 1;
    }
    order
}

} // verus!
