//! A field of a generated structure: where its bits lie, its type, and the
//! code that declares, writes and reads it.

use vstd::prelude::*;
use vstd::string::*;

use crate::bit_spec::{
    spec_suggested_word_type, spec_word_count, word_range_ordered, BitRange, BitSpec, BitSpecV,
    Repeat, RepeatV,
};
use crate::generator::case::{to_upper_camel, upper_camel_case};
use crate::generator::doc_comment::{doc_prefix, join, DocComment};
use crate::generator::common_structure::{structure_named, CommonStructure, CommonStructures};
use crate::generator::members::{
    index_of_bit_spec, lemma_index_of_bit_spec_bounds, max_fixed_extent, sizes_defined,
    variable_sizes, Members,
};
use crate::generator::target_type::{target_type_text, TargetType};
use crate::lines::lines_of;
use crate::text::{bit_spec_text, dec, decimal};

verus! {

/// A field: a common structure placed at some words, or bits of words read
/// as a value.
#[derive(Debug)]
pub enum Field {
    Structure { common_structure_name: String, description: Option<String>, bit_spec: BitSpec },
    BitField {
        bit_spec: BitSpec,
        target_type: Option<TargetType>,
        description: Option<String>,
    },
}

/// The bit specification of a field.
pub open spec fn field_bit_spec(f: Field) -> BitSpec {
    match f {
        Field::Structure { bit_spec, .. } => bit_spec,
        Field::BitField { bit_spec, .. } => bit_spec,
    }
}

/// The words of a specification that no other field bounds: from its start
/// to its end, over all repetitions; `Variable` where the number of
/// repetitions is not fixed.
#[derive(Debug, Clone, Copy, PartialEq, Eq)]
pub enum WordRange {
    Fixed(usize, usize),
    Variable(usize),
}

/// The number of repetitions of a specification, where it is fixed.
pub open spec fn fixed_repeats(r: RepeatV) -> Option<int> {
    match r {
        RepeatV::NoRepeat => Some(1),
        RepeatV::Fixed { number } => Some(number as int),
        _ => None,
    }
}

/// The last word of a specification whose repetitions are fixed.
pub open spec fn fixed_last_word(b: BitSpecV) -> int {
    b.start.index + spec_word_count(b) * fixed_repeats(b.repeat).unwrap() - 1
}

/// Whether the word range of a specification can be computed: its word
/// count is defined, and a fixed range ends at a word that exists.
pub open spec fn word_range_defined(b: BitSpecV) -> bool {
    &&& word_range_ordered(b)
    &&& fixed_repeats(b.repeat) is Some ==> 0 <= fixed_last_word(b) <= usize::MAX
}

/// The word range of a specification.
pub open spec fn spec_word_range(b: BitSpecV) -> WordRange {
    match fixed_repeats(b.repeat) {
        Some(_) => WordRange::Fixed(b.start.index, fixed_last_word(b) as usize),
        None => WordRange::Variable(b.start.index),
    }
}

/// The word range of a specification.
pub fn word_range(b: &BitSpec) -> (r: WordRange)
    requires
        word_range_defined(b@),
    ensures
        r == spec_word_range(b@),
{
    let count: usize = match &b.end {
        None => 1,
        Some(e) => e.index - b.start.index + 1,
    };
    let repeats: usize = match &b.repeat {
        Repeat::NoRepeat => 1,
        Repeat::Fixed { number } => *number,
        _ => {
            return WordRange::Variable(b.start.index);
        },
    };
    assert(count == spec_word_count(b@));
    assert(repeats == fixed_repeats(b@.repeat).unwrap());
    if repeats == 0 {
        assert(spec_word_count(b@) * fixed_repeats(b@.repeat).unwrap() == 0) by (nonlinear_arith)
            requires
                fixed_repeats(b@.repeat).unwrap() == 0,
        ;
        return WordRange::Fixed(b.start.index, b.start.index - 1);
    }
    proof {
        assert((count - 1) * repeats + (repeats - 1) == count * repeats - 1) by (nonlinear_arith)
            requires
                1 <= count,
                1 <= repeats,
        ;
        assert(0 <= (count - 1) * repeats) by (nonlinear_arith)
            requires
                1 <= count,
                1 <= repeats,
        ;
    }
    let more = (count - 1) * repeats + (repeats - 1);
    WordRange::Fixed(b.start.index, b.start.index + more)
}

/// The doc comment of a description: `/// ` before each of its lines.
pub open spec fn doc_text(description: Seq<char>) -> Seq<char> {
    join(lines_of(description).map_values(|l: Seq<char>| doc_prefix() + l), seq!['\n'])
}

/// The declaration of a member, after the doc comment of its description if
/// it has one.
pub open spec fn with_doc(description: Option<String>, line: Seq<char>) -> Seq<char> {
    match description {
        Some(d) => doc_text(d@) + seq!['\n'] + line,
        None => line,
    }
}

/// The type of a single value of a bit field: its target type if it has one,
/// else the type its bits suggest.
pub open spec fn base_type_text(b: BitSpecV, target_type: Option<TargetType>) -> Seq<char> {
    match target_type {
        Some(t) => target_type_text(t),
        None => spec_suggested_word_type(b),
    }
}

/// The type of a bit field: an array of its values where it repeats, with
/// room for the most repetitions; for a variable repeat, the provider type
/// it names.
pub open spec fn member_type_text(b: BitSpecV, target_type: Option<TargetType>) -> Seq<char> {
    let base = base_type_text(b, target_type);
    match b.repeat {
        RepeatV::Fixed { number } => "["@ + base + "; "@ + dec(number as nat) + "]"@,
        RepeatV::Dependent { limit, .. } => "["@ + base + "; "@ + dec(limit as nat) + "]"@,
        RepeatV::Variable { .. } => target_type_text(target_type.unwrap()),
        RepeatV::NoRepeat => base,
    }
}

/// The declaration of a member named `name` for a field.
pub open spec fn member_text(f: Field, name: Seq<char>) -> Seq<char> {
    match f {
        Field::Structure { common_structure_name, description, .. } => with_doc(
            description,
            name + ": "@ + upper_camel_case(common_structure_name@) + ","@,
        ),
        Field::BitField { target_type, description, bit_spec } => with_doc(
            description,
            name + ": "@ + member_type_text(bit_spec@, target_type) + ","@,
        ),
    }
}

/// Whether a member can be declared: its word count is defined, and a
/// variable repeat names its provider type.
pub open spec fn member_declarable(f: Field) -> bool {
    match f {
        Field::Structure { .. } => true,
        Field::BitField { target_type, bit_spec, .. } => (target_type is None ==> word_range_ordered(
            bit_spec@,
        )) && (bit_spec@.repeat is Variable ==> target_type is Some),
    }
}

/// Whether the statement that writes a bit field can be made: the word range
/// of a whole word that repeats a fixed number of times is defined.
pub open spec fn serialization_defined(b: BitSpecV) -> bool {
    b.start.bit_range is WholeWord && b.repeat is Fixed ==> word_range_defined(b)
}

/// The statement that writes a bit field named `name` to the request's
/// bytes `data`; the count of a dependent repeat is the member, among
/// `entries`, with the bit specification of the count.
pub open spec fn serialization_text(
    b: BitSpecV,
    name: Seq<char>,
    entries: Seq<(Seq<char>, Field)>,
) -> Seq<char> {
    let i = dec(b.start.index as nat);
    let simple = b.end is None && b.repeat is NoRepeat;
    if simple && b.start.bit_range is Single {
        "data["@ + i + "].serialize_bit(self."@ + name + ", "@ + dec(
            b.start.bit_range->Single_0 as nat,
        ) + ")"@
    } else if simple && b.start.bit_range is Range {
        "data["@ + i + "].serialize_field(self."@ + name + " as u8, "@ + dec(
            b.start.bit_range->Range_0 as nat,
        ) + ", "@ + dec(b.start.bit_range->Range_1 as nat) + ")"@
    } else if simple && b.start.bit_range is WholeWord {
        "data["@ + i + "].serialize_word(self."@ + name + ")"@
    } else if b.start.bit_range is WholeWord && b.repeat is NoRepeat && b.end is Some
        && b.end.unwrap().bit_range is WholeWord {
        "data["@ + i + "..="@ + dec(b.end.unwrap().index as nat) + "].serialize_word(self."@
            + name + ")"@
    } else if b.start.bit_range is WholeWord && b.repeat is Fixed {
        "data["@ + i + "..="@ + dec(fixed_last_word(b) as nat)
            + "].serialize_repeating_words(self."@ + name + ", "@ + dec(
            b.repeat->number as nat,
        ) + ")"@
    } else if b.start.bit_range is WholeWord && b.repeat is Dependent {
        match index_of_bit_spec(entries, *b.repeat->bit_spec, 0) {
            Some(k) => "data["@ + i + "..].serialize_repeating_words(self."@ + name + ", self."@
                + entries[k].0 + " as usize)"@,
            None => "Cannot find bit spec "@ + bit_spec_text(b),
        }
    } else if b.repeat is Variable {
        "let provider = self."@ + name
    } else if b.start.bit_range is Literal {
        "data["@ + i + "] = "@ + b.start.bit_range->Literal_0
    } else {
        "todo!(\""@ + name + "\")"@
    }
}

/// The expression that reads a bit field named `name` from the response's
/// bytes; the count of a dependent repeat is the member, among `entries`,
/// with the bit specification of the count.
pub open spec fn deserialization_text(
    b: BitSpecV,
    name: Seq<char>,
    entries: Seq<(Seq<char>, Field)>,
) -> Seq<char> {
    let i = dec(b.start.index as nat);
    let simple = b.end is None && b.repeat is NoRepeat;
    if simple && b.start.bit_range is Single {
        "self["@ + i + "].deserialize_bit("@ + dec(b.start.bit_range->Single_0 as nat) + ")"@
    } else if simple && b.start.bit_range is Range {
        "self["@ + i + "].deserialize_field("@ + dec(b.start.bit_range->Range_0 as nat) + ", "@
            + dec(b.start.bit_range->Range_1 as nat) + ").try_into()?"@
    } else if simple && b.start.bit_range is WholeWord {
        "self["@ + i + "].deserialize_word()"@
    } else if b.start.bit_range is WholeWord && b.repeat is NoRepeat && b.end is Some
        && b.end.unwrap().bit_range is WholeWord {
        "self["@ + i + "..="@ + dec(b.end.unwrap().index as nat) + "].deserialize_word()"@
    } else if b.start.bit_range is WholeWord && b.repeat is Fixed {
        "self["@ + i + "..].deserialize_repeating_words("@ + dec(b.repeat->number as nat) + ")"@
    } else if b.start.bit_range is WholeWord && b.repeat is Dependent {
        let k = index_of_bit_spec(entries, *b.repeat->bit_spec, 0).unwrap();
        "self["@ + i + "..].deserialize_repeating_words("@ + entries[k].0 + " as usize)"@
    } else if b.start.bit_range is Literal {
        b.start.bit_range->Literal_0
    } else {
        "todo!(\""@ + name + "\")"@
    }
}

/// Whether the count of a dependent repeat can be found among `entries`.
pub open spec fn counter_found(b: BitSpecV, entries: Seq<(Seq<char>, Field)>) -> bool {
    b.start.bit_range is WholeWord && b.repeat is Dependent ==> index_of_bit_spec(
        entries,
        *b.repeat->bit_spec,
        0,
    ) is Some
}

/// The statement that writes a common structure at the words of `b`, of
/// `size` bytes, from the member `field_name`.
pub open spec fn header_serialization_text(b: BitSpecV, field_name: Seq<char>, size: int) -> Seq<
    char,
> {
    let end = match b.end {
        Some(w) => "..="@ + dec(w.index as nat),
        None => Seq::empty(),
    };
    "data["@ + dec(b.start.index as nat) + end + "].serialize_struct::<"@ + dec(size as nat)
        + ">(self."@ + field_name + ")"@
}

/// The expression that reads a common structure from the words of `b`.
pub open spec fn header_deserialization_text(b: BitSpecV) -> Seq<char> {
    "self["@ + dec(b.start.index as nat) + ".."@ + dec(fixed_last_word(b) as nat)
        + "].deserialize().unwrap()"@
}

/// Whether a common structure named `name` can be written: it is among
/// `cs`, and its size is fixed.
pub open spec fn header_sized(cs: Seq<(Seq<char>, CommonStructure)>, name: Seq<char>) -> bool {
    structure_named(cs, name) matches Some(c) && sizes_defined(c.0.entries()) && variable_sizes(
        c.0.entries(),
        c.0.entries(),
    ).len() == 0
}

/// The size of the common structure named `name` among `cs`.
pub open spec fn header_size(cs: Seq<(Seq<char>, CommonStructure)>, name: Seq<char>) -> int {
    max_fixed_extent(structure_named(cs, name).unwrap().0.entries())
}

/// The statement that writes a field, named `name`, to the request's bytes.
pub open spec fn field_serialization_text(
    f: Field,
    name: Seq<char>,
    entries: Seq<(Seq<char>, Field)>,
    cs: Seq<(Seq<char>, CommonStructure)>,
) -> Seq<char> {
    let code = match f {
        Field::BitField { bit_spec, .. } => serialization_text(bit_spec@, name, entries),
        Field::Structure { common_structure_name, bit_spec, .. } => header_serialization_text(
            bit_spec@,
            name,
            header_size(cs, common_structure_name@),
        ),
    };
    code + ";"@
}

/// Whether a field can be written.
pub open spec fn field_serializable(f: Field, cs: Seq<(Seq<char>, CommonStructure)>) -> bool {
    match f {
        Field::BitField { bit_spec, .. } => serialization_defined(bit_spec@),
        Field::Structure { common_structure_name, .. } => header_sized(
            cs,
            common_structure_name@,
        ),
    }
}

/// The statement that reads a field, named `name`, from the response's
/// bytes into a variable.
pub open spec fn field_deserialization_text(
    f: Field,
    name: Seq<char>,
    entries: Seq<(Seq<char>, Field)>,
) -> Seq<char> {
    let code = match f {
        Field::BitField { bit_spec, .. } => deserialization_text(bit_spec@, name, entries),
        Field::Structure { bit_spec, .. } => header_deserialization_text(bit_spec@),
    };
    code + ";"@
}

/// Whether a field can be read.
pub open spec fn field_deserializable(f: Field, entries: Seq<(Seq<char>, Field)>) -> bool {
    match f {
        Field::BitField { bit_spec, .. } => counter_found(bit_spec@, entries),
        Field::Structure { bit_spec, .. } => word_range_defined(bit_spec@) && fixed_repeats(
            bit_spec@.repeat,
        ) is Some,
    }
}

/// Whether the word range of a specification can be computed.
pub fn word_range_is_defined(b: &BitSpec) -> (r: bool)
    ensures
        r == word_range_defined(b@),
{
    let count: u128 = match &b.end {
        None => 1,
        Some(e) => {
            if e.index < b.start.index || e.index - b.start.index == usize::MAX {
                return false;
            }
            (e.index - b.start.index) as u128 + 1
        },
    };
    assert(count == spec_word_count(b@));
    let repeats: u128 = match &b.repeat {
        Repeat::NoRepeat => 1,
        Repeat::Fixed { number } => *number as u128,
        _ => {
            return true;
        },
    };
    assert(repeats == fixed_repeats(b@.repeat).unwrap());
    proof {
        assert(count * repeats <= 0xFFFF_FFFF_FFFF_FFFFu128 * 0xFFFF_FFFF_FFFF_FFFFu128)
            by (nonlinear_arith)
            requires
                count <= 0xFFFF_FFFF_FFFF_FFFFu128,
                repeats <= 0xFFFF_FFFF_FFFF_FFFFu128,
        ;
        assert(0 <= count * repeats) by (nonlinear_arith)
            requires
                0 <= count,
                0 <= repeats,
        ;
    }
    let words: u128 = count * repeats;
    let end: u128 = b.start.index as u128 + words;
    end >= 1 && end - 1 <= usize::MAX as u128
}

/// Whether the statement that writes a bit field can be made.
pub fn serialization_is_defined(b: &BitSpec) -> (r: bool)
    ensures
        r == serialization_defined(b@),
{
    match (&b.start.bit_range, &b.repeat) {
        (BitRange::WholeWord, Repeat::Fixed { .. }) => word_range_is_defined(b),
        _ => true,
    }
}

impl Field {
    /// Whether the member of this field can be declared.
    pub fn is_declarable(&self) -> (r: bool)
        ensures
            r == member_declarable(*self),
    {
        match self {
            Field::Structure { .. } => true,
            Field::BitField { target_type, bit_spec, .. } => {
                let ordered = match &bit_spec.end {
                    None => true,
                    Some(e) => e.index >= bit_spec.start.index && e.index - bit_spec.start.index
                        < usize::MAX,
                };
                let variable = matches!(bit_spec.repeat, Repeat::Variable { .. });
                (target_type.is_some() || ordered) && (!variable || target_type.is_some())
            },
        }
    }

    /// Whether this field can be read, given the members of its response.
    pub fn is_deserializable(&self, members: &Members) -> (r: bool)
        ensures
            r == field_deserializable(*self, members.entries()),
    {
        match self {
            Field::BitField { bit_spec, .. } => match (&bit_spec.start.bit_range, &bit_spec.repeat) {
                (BitRange::WholeWord, Repeat::Dependent { bit_spec: counter, .. }) => {
                    proof {
                        lemma_index_of_bit_spec_bounds(members.entries(), counter@, 0);
                    }
                    members.find_field_by_bitspec(counter).is_some()
                },
                _ => true,
            },
            Field::Structure { bit_spec, .. } => {
                let fixed = match &bit_spec.repeat {
                    Repeat::NoRepeat => true,
                    Repeat::Fixed { .. } => true,
                    _ => false,
                };
                fixed && word_range_is_defined(bit_spec)
            },
        }
    }

    /// Whether this field can be written, given the common structures.
    pub fn is_serializable(&self, common_structures: &CommonStructures) -> (r: bool)
        ensures
            r == field_serializable(*self, common_structures.entries()),
    {
        match self {
            Field::BitField { bit_spec, .. } => serialization_is_defined(bit_spec),
            Field::Structure { common_structure_name, .. } => common_structures.header_is_sized(
                common_structure_name.as_str(),
            ),
        }
    }
}

/// Writes the doc comment of a description.
pub(crate) fn doc_of(description: &str) -> (r: String)
    ensures
        r@ == doc_text(description@),
{
    let d = DocComment::from_string(description);
    d.as_string()
}

/// Puts the doc comment of a description, if there is one, before a line.
fn add_doc(description: &Option<String>, line: String) -> (r: String)
    ensures
        r@ == with_doc(*description, line@),
{
    match description {
        Some(d) => {
            let mut s = doc_of(d.as_str());
            proof {
                reveal_strlit("\n");
            }
            s.append("\n");
            s.append(line.as_str());
            s
        },
        None => line,
    }
}

/// Appends the decimal digits of `n`.
fn push_dec(s: &mut String, n: usize)
    ensures
        final(s)@ == old(s)@ + dec(n as nat),
{
    let d = decimal(n);
    s.append(d.as_str());
}

impl Field {
    /// The bit specification of the field.
    pub fn bit_spec(&self) -> (r: &BitSpec)
        ensures
            *r == field_bit_spec(*self),
    {
        match self {
            Field::Structure { bit_spec, .. } => bit_spec,
            Field::BitField { bit_spec, .. } => bit_spec,
        }
    }

    /// The name of the provider type of the field, if it has one: a bit
    /// field with a variable repeat whose target type names a type.
    pub fn provider(&self) -> (r: Option<&str>)
        ensures
            match *self {
                Field::BitField {
                    bit_spec,
                    target_type: Some(TargetType::TypeName(p)),
                    ..
                } => bit_spec.repeat is Variable ==> (r matches Some(n) && n@ == p@),
                _ => r is None,
            },
            r is Some ==> (self matches Field::BitField {
                bit_spec,
                target_type: Some(TargetType::TypeName(_)),
                ..
            } && bit_spec.repeat is Variable),
    {
        match self {
            Field::BitField {
                bit_spec,
                target_type: Some(TargetType::TypeName(provider_name)),
                ..
            } => match &bit_spec.repeat {
                Repeat::Variable { .. } => Some(provider_name.as_str()),
                _ => None,
            },
            _ => None,
        }
    }

    /// The declaration of the member named `name` for this field, after the
    /// doc comment of its description.
    pub fn generate_struct_member(&self, name: &str) -> (r: String)
        requires
            member_declarable(*self),
        ensures
            r@ == member_text(*self, name@),
    {
        proof {
            reveal_strlit(": ");
            reveal_strlit(",");
            reveal_strlit("[");
            reveal_strlit("; ");
            reveal_strlit("]");
        }
        match self {
            Field::Structure { common_structure_name, description, .. } => {
                let mut line = String::from_str(name);
                line.append(": ");
                let t = to_upper_camel(common_structure_name.as_str());
                line.append(t.as_str());
                line.append(",");
                add_doc(description, line)
            },
            Field::BitField { target_type, description, bit_spec } => {
                let base = match target_type {
                    Some(t) => t.to_string(),
                    None => bit_spec.suggested_word_type(),
                };
                let type_text = match &bit_spec.repeat {
                    Repeat::Fixed { number } => {
                        let mut s = String::from_str("[");
                        s.append(base.as_str());
                        s.append("; ");
                        push_dec(&mut s, *number);
                        s.append("]");
                        s
                    },
                    Repeat::Dependent { limit, .. } => {
                        let mut s = String::from_str("[");
                        s.append(base.as_str());
                        s.append("; ");
                        push_dec(&mut s, *limit);
                        s.append("]");
                        s
                    },
                    Repeat::Variable { .. } => {
                        let t = target_type.as_ref().unwrap();
                        t.to_string()
                    },
                    Repeat::NoRepeat => base,
                };
                let mut line = String::from_str(name);
                line.append(": ");
                line.append(type_text.as_str());
                line.append(",");
                add_doc(description, line)
            },
        }
    }

    /// The statement that writes this field, named `name`, to the request's
    /// bytes `data`; `members` are the members of the request.
    pub fn generate_word_field_serialization(&self, name: &str, members: &Members) -> (r: String)
        requires
            serialization_defined(field_bit_spec(*self)@),
        ensures
            r@ == serialization_text(field_bit_spec(*self)@, name@, members.entries()),
    {
        let b = self.bit_spec();
        let ghost bv = b@;
        let mut s = String::new();
        proof {
            reveal_strlit("data[");
            reveal_strlit("].serialize_bit(self.");
            reveal_strlit(", ");
            reveal_strlit(")");
            reveal_strlit("].serialize_field(self.");
            reveal_strlit(" as u8, ");
            reveal_strlit("].serialize_word(self.");
            reveal_strlit("..=");
            reveal_strlit("].serialize_repeating_words(self.");
            reveal_strlit("..].serialize_repeating_words(self.");
            reveal_strlit(", self.");
            reveal_strlit(" as usize)");
            reveal_strlit("Cannot find bit spec ");
            reveal_strlit("let provider = self.");
            reveal_strlit("] = ");
            reveal_strlit("todo!(\"");
            reveal_strlit("\")");
        }
        let simple = b.end.is_none() && matches!(b.repeat, Repeat::NoRepeat);
        let start_whole = matches!(b.start.bit_range, BitRange::WholeWord);
        if simple {
            match &b.start.bit_range {
                BitRange::Single(p) => {
                    s.append("data[");
                    push_dec(&mut s, b.start.index);
                    s.append("].serialize_bit(self.");
                    s.append(name);
                    s.append(", ");
                    push_dec(&mut s, *p as usize);
                    s.append(")");
                    return s;
                },
                BitRange::Range(p, q) => {
                    s.append("data[");
                    push_dec(&mut s, b.start.index);
                    s.append("].serialize_field(self.");
                    s.append(name);
                    s.append(" as u8, ");
                    push_dec(&mut s, *p as usize);
                    s.append(", ");
                    push_dec(&mut s, *q as usize);
                    s.append(")");
                    return s;
                },
                BitRange::WholeWord => {
                    s.append("data[");
                    push_dec(&mut s, b.start.index);
                    s.append("].serialize_word(self.");
                    s.append(name);
                    s.append(")");
                    return s;
                },
                _ => {},
            }
        }
        if start_whole && matches!(b.repeat, Repeat::NoRepeat) {
            if let Some(e) = &b.end {
                if matches!(e.bit_range, BitRange::WholeWord) {
                    s.append("data[");
                    push_dec(&mut s, b.start.index);
                    s.append("..=");
                    push_dec(&mut s, e.index);
                    s.append("].serialize_word(self.");
                    s.append(name);
                    s.append(")");
                    return s;
                }
            }
        }
        if start_whole {
            match &b.repeat {
                Repeat::Fixed { number } => {
                    let last = match word_range(b) {
                        WordRange::Fixed(_, last) => last,
                        WordRange::Variable(_) => 0,
                    };
                    s.append("data[");
                    push_dec(&mut s, b.start.index);
                    s.append("..=");
                    push_dec(&mut s, last);
                    s.append("].serialize_repeating_words(self.");
                    s.append(name);
                    s.append(", ");
                    push_dec(&mut s, *number);
                    s.append(")");
                    return s;
                },
                Repeat::Dependent { bit_spec: counter, .. } => {
                    match members.find_field_by_bitspec(counter) {
                        Some((count_name, _)) => {
                            s.append("data[");
                            push_dec(&mut s, b.start.index);
                            s.append("..].serialize_repeating_words(self.");
                            s.append(name);
                            s.append(", self.");
                            s.append(count_name);
                            s.append(" as usize)");
                        },
                        None => {
                            s.append("Cannot find bit spec ");
                            let t = b.to_string();
                            s.append(t.as_str());
                        },
                    }
                    return s;
                },
                _ => {},
            }
        }
        if matches!(b.repeat, Repeat::Variable { .. }) {
            s.append("let provider = self.");
            s.append(name);
            return s;
        }
        if let BitRange::Literal(l) = &b.start.bit_range {
            s.append("data[");
            push_dec(&mut s, b.start.index);
            s.append("] = ");
            s.append(l.as_str());
            return s;
        }
        s.append("todo!(\"");
        s.append(name);
        s.append("\")");
        s
    }

    /// The expression that reads a field with the bit specification
    /// `bit_spec`, named `name`, from the response's bytes; `members` are the
    /// members of the response.
    pub fn generate_word_field_deserialization(
        &self,
        name: &str,
        bit_spec: &BitSpec,
        members: &Members,
    ) -> (r: String)
        requires
            counter_found(bit_spec@, members.entries()),
        ensures
            r@ == deserialization_text(bit_spec@, name@, members.entries()),
    {
        let b = bit_spec;
        let mut s = String::new();
        proof {
            reveal_strlit("self[");
            reveal_strlit("].deserialize_bit(");
            reveal_strlit(")");
            reveal_strlit("].deserialize_field(");
            reveal_strlit(", ");
            reveal_strlit(").try_into()?");
            reveal_strlit("].deserialize_word()");
            reveal_strlit("..=");
            reveal_strlit("..].deserialize_repeating_words(");
            reveal_strlit(" as usize)");
            reveal_strlit("todo!(\"");
            reveal_strlit("\")");
        }
        let simple = b.end.is_none() && matches!(b.repeat, Repeat::NoRepeat);
        let start_whole = matches!(b.start.bit_range, BitRange::WholeWord);
        if simple {
            match &b.start.bit_range {
                BitRange::Single(p) => {
                    s.append("self[");
                    push_dec(&mut s, b.start.index);
                    s.append("].deserialize_bit(");
                    push_dec(&mut s, *p as usize);
                    s.append(")");
                    return s;
                },
                BitRange::Range(p, q) => {
                    s.append("self[");
                    push_dec(&mut s, b.start.index);
                    s.append("].deserialize_field(");
                    push_dec(&mut s, *p as usize);
                    s.append(", ");
                    push_dec(&mut s, *q as usize);
                    s.append(").try_into()?");
                    return s;
                },
                BitRange::WholeWord => {
                    s.append("self[");
                    push_dec(&mut s, b.start.index);
                    s.append("].deserialize_word()");
                    return s;
                },
                _ => {},
            }
        }
        if start_whole && matches!(b.repeat, Repeat::NoRepeat) {
            if let Some(e) = &b.end {
                if matches!(e.bit_range, BitRange::WholeWord) {
                    s.append("self[");
                    push_dec(&mut s, b.start.index);
                    s.append("..=");
                    push_dec(&mut s, e.index);
                    s.append("].deserialize_word()");
                    return s;
                }
            }
        }
        if start_whole {
            match &b.repeat {
                Repeat::Fixed { number } => {
                    s.append("self[");
                    push_dec(&mut s, b.start.index);
                    s.append("..].deserialize_repeating_words(");
                    push_dec(&mut s, *number);
                    s.append(")");
                    return s;
                },
                Repeat::Dependent { bit_spec: counter, .. } => {
                    proof {
                        lemma_index_of_bit_spec_bounds(members.entries(), counter@, 0);
                    }
                    let found = members.find_field_by_bitspec(counter);
                    let (count_name, _) = found.unwrap();
                    s.append("self[");
                    push_dec(&mut s, b.start.index);
                    s.append("..].deserialize_repeating_words(");
                    s.append(count_name);
                    s.append(" as usize)");
                    return s;
                },
                _ => {},
            }
        }
        if let BitRange::Literal(l) = &b.start.bit_range {
            return String::from_str(l.as_str());
        }
        s.append("todo!(\"");
        s.append(name);
        s.append("\")");
        s
    }

    /// The statement that writes a common structure field, named
    /// `field_name`, to the request's bytes.
    pub fn generate_header_field_serialization(
        &self,
        field_name: &str,
        common_structure_name: &str,
        common_structures: &CommonStructures,
    ) -> (r: String)
        requires
            header_sized(common_structures.entries(), common_structure_name@),
        ensures
            r@ == header_serialization_text(
                field_bit_spec(*self)@,
                field_name@,
                header_size(common_structures.entries(), common_structure_name@),
            ),
    {
        proof {
            reveal_strlit("data[");
            reveal_strlit("..=");
            reveal_strlit("].serialize_struct::<");
            reveal_strlit(">(self.");
            reveal_strlit(")");
        }
        let common_structure = common_structures.get(common_structure_name).unwrap();
        let size = common_structure.size();
        let b = self.bit_spec();
        let mut s = String::from_str("data[");
        push_dec(&mut s, b.start.index);
        if let Some(w) = &b.end {
            s.append("..=");
            push_dec(&mut s, w.index);
        }
        s.append("].serialize_struct::<");
        push_dec(&mut s, size);
        s.append(">(self.");
        s.append(field_name);
        s.append(")");
        s
    }

    /// The expression that reads a common structure field from the
    /// response's bytes.
    pub fn generate_header_field_deserialization(&self) -> (r: String)
        requires
            word_range_defined(field_bit_spec(*self)@),
            fixed_repeats(field_bit_spec(*self)@.repeat) is Some,
        ensures
            r@ == header_deserialization_text(field_bit_spec(*self)@),
    {
        proof {
            reveal_strlit("self[");
            reveal_strlit("..");
            reveal_strlit("].deserialize().unwrap()");
        }
        let b = self.bit_spec();
        let (start, last) = match word_range(b) {
            WordRange::Fixed(start, last) => (start, last),
            WordRange::Variable(start) => (start, 0),
        };
        let mut s = String::from_str("self[");
        push_dec(&mut s, start);
        s.append("..");
        push_dec(&mut s, last);
        s.append("].deserialize().unwrap()");
        s
    }

    /// The statement that writes this field, named `name`, to the request's
    /// bytes; `members` are the members of the request.
    pub fn generate_field_serialization(
        &self,
        name: &str,
        members: &Members,
        common_structures: &CommonStructures,
    ) -> (r: String)
        requires
            field_serializable(*self, common_structures.entries()),
        ensures
            r@ == field_serialization_text(
                *self,
                name@,
                members.entries(),
                common_structures.entries(),
            ),
    {
        let mut code = match self {
            Field::BitField { .. } => self.generate_word_field_serialization(name, members),
            Field::Structure { common_structure_name, .. } => self.generate_header_field_serialization(
                name,
                common_structure_name.as_str(),
                common_structures,
            ),
        };
        proof {
            reveal_strlit(";");
        }
        code.append(";");
        code
    }

    /// The statement that reads this field, named `name`, from the
    /// response's bytes; `members` are the members of the response.
    pub fn generate_field_deserialization(&self, name: &str, members: &Members) -> (r: String)
        requires
            field_deserializable(*self, members.entries()),
        ensures
            r@ == field_deserialization_text(*self, name@, members.entries()),
    {
        let mut code = match self {
            Field::BitField { bit_spec, .. } => self.generate_word_field_deserialization(
                name,
                bit_spec,
                members,
            ),
            Field::Structure { .. } => self.generate_header_field_deserialization(),
        };
        proof {
            reveal_strlit(";");
        }
        code.append(";");
        code
    }
}

} // verus!
