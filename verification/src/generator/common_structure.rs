//! Common structures: groups of fields that several commands share, such as
//! a status header, and the named set of them that a definition declares.

use vstd::prelude::*;

use crate::bit_spec::{spec_max_size, spec_word_count, word_range_ordered, BitSpec, BitSpecV};
use crate::generator::case::{to_upper_camel, upper_camel_case};
use crate::generator::doc_comment::DocComment;
use crate::generator::field::{
    doc_of, doc_text, field_deserializable, field_serializable, header_sized, member_declarable,
    Field,
};
use crate::generator::source_text::{
    deserialize_impl_text, generated_doc, generated_doc_text, serialize_impl_text,
    struct_decl_text, write_deserialize_impl, write_serialize_impl, write_struct_decl,
};
use crate::generator::members::{max_fixed_extent, sizes_defined, variable_sizes, Members};
use crate::text::same_text;

verus! {

/// A common structure: its members. Common structures have fixed sizes and
/// hold no other common structure.
#[derive(Debug)]
pub struct CommonStructure(pub Members);

/// One after the last byte of a bit field: its start and the size of its
/// largest array.
pub open spec fn bit_field_extent(b: BitSpecV) -> int {
    b.start.index + spec_max_size(b)
}

/// The bytes that fields made of bit fields alone need: one after the last
/// byte of any of them, or zero.
pub open spec fn plain_buffer_size(e: Seq<(Seq<char>, Field)>) -> int
    decreases e.len(),
{
    if e.len() == 0 {
        0
    } else {
        let rest = plain_buffer_size(e.drop_last());
        let x = match e.last().1 {
            Field::BitField { bit_spec, .. } => bit_field_extent(bit_spec@),
            Field::Structure { .. } => 0,
        };
        if x > rest {
            x
        } else {
            rest
        }
    }
}

/// Whether the extent of a bit field can be computed.
pub open spec fn bit_field_sized(b: BitSpecV) -> bool {
    word_range_ordered(b) && spec_max_size(b) <= usize::MAX && bit_field_extent(b) <= usize::MAX
}

/// Whether the members are all bit fields whose extents can be computed.
pub open spec fn plain_sized(e: Seq<(Seq<char>, Field)>) -> bool {
    forall|k: int|
        0 <= k < e.len() ==> match #[trigger] e[k].1 {
            Field::BitField { bit_spec, .. } => bit_field_sized(bit_spec@),
            Field::Structure { .. } => false,
        }
}

/// The buffer size of members made of bit fields alone.
fn plain_size_of(m: &Members) -> (r: usize)
    requires
        plain_sized(m.entries()),
    ensures
        r == plain_buffer_size(m.entries()),
{
    let ghost e = m.entries();
    let mut size: usize = 0;
    let mut i: usize = 0;
    while i < m.len()
        invariant
            0 <= i <= e.len(),
            e == m.entries(),
            plain_sized(e),
            size == plain_buffer_size(e.take(i as int)),
        decreases e.len() - i,
    {
        assert(e.take(i + 1).drop_last() =~= e.take(i as int));
        assert(e.take(i + 1).last() == e[i as int]);
        let (_, field) = m.entry(i);
        if let Field::BitField { bit_spec, .. } = field {
            let x = bit_spec.start.index + bit_spec.max_size();
            if x > size {
                size = x;
            }
        }
        i = i + 1;
    }
    assert(e.take(i as int) =~= e);
    size
}

/// Whether the extent of a bit field can be computed.
pub fn bit_field_is_sized(b: &BitSpec) -> (r: bool)
    ensures
        r == bit_field_sized(b@),
{
    let count: u128 = match &b.end {
        None => 1,
        Some(e) => {
            if e.index < b.start.index || e.index - b.start.index == usize::MAX {
                return false;
            }
            (e.index - b.start.index) as u128 + 1
        },
    };
    assert(count == spec_word_count(b@));
    let repeats = b.repeat.max_repeats() as u128;
    proof {
        assert(count * repeats <= 0xFFFF_FFFF_FFFF_FFFFu128 * 0xFFFF_FFFF_FFFF_FFFFu128)
            by (nonlinear_arith)
            requires
                count <= 0xFFFF_FFFF_FFFF_FFFFu128,
                repeats <= 0xFFFF_FFFF_FFFF_FFFFu128,
        ;
        assert(0 <= count * repeats) by (nonlinear_arith)
            requires
                0 <= count,
                0 <= repeats,
        ;
    }
    let size: u128 = count * repeats;
    size <= usize::MAX as u128 && b.start.index as u128 + size <= usize::MAX as u128
}

/// Whether the members are all bit fields whose extents can be computed.
pub fn is_plain_sized(m: &Members) -> (r: bool)
    ensures
        r == plain_sized(m.entries()),
{
    let ghost e = m.entries();
    let mut i: usize = 0;
    while i < m.len()
        invariant
            0 <= i <= e.len(),
            e == m.entries(),
            forall|k: int| 0 <= k < i ==> match #[trigger] e[k].1 {
                Field::BitField { bit_spec, .. } => bit_field_sized(bit_spec@),
                Field::Structure { .. } => false,
            },
        decreases e.len() - i,
    {
        let (_, field) = m.entry(i);
        match field {
            Field::BitField { bit_spec, .. } => {
                if !bit_field_is_sized(bit_spec) {
                    return false;
                }
            },
            Field::Structure { .. } => {
                return false;
            },
        }
        i = i + 1;
    }
    true
}

impl CommonStructure {
    /// The members.
    pub fn new(members: Members) -> (r: CommonStructure)
        ensures
            r.0 == members,
    {
        CommonStructure(members)
    }

    /// How many bytes the structure spans: one after the last word of its
    /// fields. Common structures cannot contain variable fields.
    pub fn size(&self) -> (r: usize)
        requires
            sizes_defined(self.0.entries()),
            variable_sizes(self.0.entries(), self.0.entries()).len() == 0,
        ensures
            r == max_fixed_extent(self.0.entries()),
    {
        let (fixed, _) = self.0.size();
        fixed
    }

    /// The size in bytes of a buffer that holds the structure: one after the
    /// last byte of its largest arrays.
    pub fn buffer_size(&self) -> (r: usize)
        requires
            plain_sized(self.0.entries()),
        ensures
            r == plain_buffer_size(self.0.entries()),
    {
        plain_size_of(&self.0)
    }
}

/// The common structures of a definition, by name, each name used once.
#[derive(Debug)]
pub struct CommonStructures(Vec<(String, CommonStructure)>);

/// The entries of named structures, each name taken by its text.
pub open spec fn structure_views(v: Seq<(String, CommonStructure)>) -> Seq<
    (Seq<char>, CommonStructure),
> {
    v.map_values(|e: (String, CommonStructure)| (e.0@, e.1))
}

/// The position of the first structure from `i` on named `name`, if any.
pub open spec fn index_of_structure(
    cs: Seq<(Seq<char>, CommonStructure)>,
    name: Seq<char>,
    i: int,
) -> Option<int>
    decreases cs.len() - i,
{
    if i < 0 || i >= cs.len() {
        None
    } else if cs[i].0 == name {
        Some(i)
    } else {
        index_of_structure(cs, name, i + 1)
    }
}

/// The structure named `name`, if there is one.
pub open spec fn structure_named(cs: Seq<(Seq<char>, CommonStructure)>, name: Seq<char>) -> Option<
    CommonStructure,
> {
    match index_of_structure(cs, name, 0) {
        Some(k) => Some(cs[k].1),
        None => None,
    }
}

/// What is found at an index from `i` on lies between `i` and the end.
pub proof fn lemma_index_of_structure_bounds(
    cs: Seq<(Seq<char>, CommonStructure)>,
    name: Seq<char>,
    i: int,
)
    requires
        0 <= i,
    ensures
        index_of_structure(cs, name, i) matches Some(k) ==> i <= k < cs.len() && cs[k].0 == name,
        index_of_structure(cs, name, i) is None ==> forall|k: int|
            i <= k < cs.len() ==> cs[k].0 != name,
    decreases cs.len() - i,
{
    if i < cs.len() && cs[i].0 != name {
        lemma_index_of_structure_bounds(cs, name, i + 1);
    }
}

impl CommonStructures {
    /// No name occurs twice.
    #[verifier::type_invariant]
    spec fn distinct(&self) -> bool {
        forall|a: int, b: int|
            0 <= a < b < self.0@.len() ==> #[trigger] self.0@[a].0@ != #[trigger] self.0@[b].0@
    }

    /// The named structures, in the order they were added.
    pub closed spec fn entries(&self) -> Seq<(Seq<char>, CommonStructure)> {
        structure_views(self.0@)
    }

    /// No structures.
    pub fn new() -> (r: CommonStructures)
        ensures
            r.entries() == Seq::<(Seq<char>, CommonStructure)>::empty(),
    {
        let r = CommonStructures(Vec::new());
        assert(r.entries() =~= Seq::<(Seq<char>, CommonStructure)>::empty());
        r
    }

    /// The position of the structure named `name`, if there is one.
    fn position_of_name(&self, name: &str) -> (r: Option<usize>)
        ensures
            match r {
                Some(k) => index_of_structure(self.entries(), name@, 0) == Some(k as int),
                None => index_of_structure(self.entries(), name@, 0) is None,
            },
    {
        let ghost e = self.entries();
        let mut i: usize = 0;
        while i < self.0.len()
            invariant
                0 <= i <= self.0@.len(),
                e == structure_views(self.0@),
                index_of_structure(e, name@, 0) == index_of_structure(e, name@, i as int),
            decreases self.0@.len() - i,
        {
            if same_text(self.0[i].0.as_str(), name) {
                assert(e[i as int].0 == name@);
                return Some(i);
            }
            i = i + 1;
        }
        None
    }

    /// Adds `structure` under `name`, replacing the structure of that name
    /// if there is one.
    pub fn add(&mut self, name: &str, structure: CommonStructure)
        ensures
            final(self).entries() == match index_of_structure(old(self).entries(), name@, 0) {
                Some(k) => old(self).entries().update(k, (name@, structure)),
                None => old(self).entries().push((name@, structure)),
            },
    {
        proof {
            use_type_invariant(&*self);
        }
        let ghost e = self.entries();
        proof {
            lemma_index_of_structure_bounds(e, name@, 0);
        }
        let found = self.position_of_name(name);
        let mut entries = Vec::new();
        std::mem::swap(&mut entries, &mut self.0);
        assert(structure_views(entries@) == e);
        match found {
            Some(i) => {
                entries.set(i, (String::from_str(name), structure));
                proof {
                    assert(structure_views(entries@) =~= e.update(i as int, (name@, structure)));
                    assert forall|a: int, b: int|
                        0 <= a < b < entries@.len() implies #[trigger] entries@[a].0@
                        != #[trigger] entries@[b].0@ by {
                        assert(e[a].0 != e[b].0);
                        assert(structure_views(entries@)[a].0 == e[a].0);
                        assert(structure_views(entries@)[b].0 == e[b].0);
                    }
                }
            },
            None => {
                entries.push((String::from_str(name), structure));
                proof {
                    assert(structure_views(entries@) =~= e.push((name@, structure)));
                    assert forall|a: int, b: int|
                        0 <= a < b < entries@.len() implies #[trigger] entries@[a].0@
                        != #[trigger] entries@[b].0@ by {
                        assert(structure_views(entries@)[a].0 == entries@[a].0@);
                        assert(structure_views(entries@)[b].0 == entries@[b].0@);
                        if b < e.len() {
                            assert(e[a].0 != e[b].0);
                        } else {
                            assert(e[a].0 != name@);
                        }
                    }
                }
            },
        }
        self.0 = entries;
    }

    /// The structure named `name`, if there is one.
    pub fn get(&self, name: &str) -> (r: Option<&CommonStructure>)
        ensures
            match structure_named(self.entries(), name@) {
                Some(c) => r == Some(&c),
                None => r is None,
            },
    {
        proof {
            lemma_index_of_structure_bounds(self.entries(), name@, 0);
        }
        match self.position_of_name(name) {
            Some(i) => {
                assert(self.entries()[i as int].1 == self.0@[i as int].1);
                Some(&self.0[i].1)
            },
            None => None,
        }
    }

    /// Whether the structure named `name` can be written: it is here and its
    /// size is fixed.
    pub fn header_is_sized(&self, name: &str) -> (r: bool)
        ensures
            r == header_sized(self.entries(), name@),
    {
        match self.get(name) {
            Some(c) => {
                if !c.0.sizes_are_defined() {
                    return false;
                }
                let (_, variable) = c.0.size();
                proof {
                    assert(variable@.map_values(|v: (usize, String)| (v.0 as int, v.1@)).len()
                        == variable@.len());
                }
                variable.len() == 0
            },
            None => false,
        }
    }

    /// The number of structures.
    pub fn len(&self) -> (r: usize)
        ensures
            r == self.entries().len(),
    {
        self.0.len()
    }

    /// The name and the structure at `k`.
    pub fn entry(&self, k: usize) -> (r: (&str, &CommonStructure))
        requires
            k < self.entries().len(),
        ensures
            r.0@ == self.entries()[k as int].0,
            *r.1 == self.entries()[k as int].1,
    {
        (self.0[k].0.as_str(), &self.0[k].1)
    }
}

/// Whether the file of a common structure can be written: its members can
/// be declared, written and read.
pub open spec fn structure_writable(c: CommonStructure, cs: Seq<(Seq<char>, CommonStructure)>) -> bool {
    &&& forall|k: int|
        0 <= k < c.0.entries().len() ==> #[trigger] member_declarable(c.0.entries()[k].1)
    &&& forall|k: int|
        0 <= k < c.0.entries().len() ==> #[trigger] field_serializable(c.0.entries()[k].1, cs)
    &&& sizes_defined(c.0.entries())
    &&& forall|k: int|
        0 <= k < c.0.entries().len() ==> #[trigger] field_deserializable(
            c.0.entries()[k].1,
            c.0.entries(),
        )
}

/// The file of a common structure named `name`: its documentation, its
/// imports, and the structure with its `Serialize` and `Deserialize`
/// implementations.
pub open spec fn common_structure_file_spec(
    name: Seq<char>,
    c: CommonStructure,
    cs: Seq<(Seq<char>, CommonStructure)>,
    version: Seq<char>,
) -> Seq<char> {
    let struct_name = upper_camel_case(name);
    doc_text("Common structure used in the driver"@) + "\n"@ + seq!['/', '/', '/'] + "\n"@
        + generated_doc_text(version) + "\n\n"@
        + "use crate::deserialize::Deserialize;\nuse crate::error::DeviceError;\n#[allow(unused_imports)]\nuse crate::request::{RequestArray, RequestBit, RequestField, RequestWord};\n#[allow(unused_imports)]\nuse crate::response::{ResponseArray, ResponseBit, ResponseField, ResponseWord};\nuse crate::serialize::Serialize;\n\nuse crate::types::*;"@
        + "\n\n"@ + struct_decl_text(
        struct_name,
        c.0.entries(),
        "Debug, PartialEq, Copy, Clone, Default"@,
    ) + "\n"@ + serialize_impl_text(struct_name, c.0.entries(), cs) + "\n"@
        + deserialize_impl_text(struct_name, c.0.entries())
}

/// Writes the file of the common structure named `name`, generated with the
/// given version of the generator.
pub fn common_structure_file_text(
    name: &str,
    structure: &CommonStructure,
    common_structures: &CommonStructures,
    version: &str,
) -> (r: String)
    requires
        structure_writable(*structure, common_structures.entries()),
    ensures
        r@ == common_structure_file_spec(
            name@,
            *structure,
            common_structures.entries(),
            version@,
        ),
{
    let struct_name = to_upper_camel(name);
    let mut s = doc_of("Common structure used in the driver");
    s.append("\n");
    s.append(DocComment::empty().as_str());
    s.append("\n");
    s.append(generated_doc(version).as_str());
    s.append("\n\n");
    s.append(
        "use crate::deserialize::Deserialize;\nuse crate::error::DeviceError;\n#[allow(unused_imports)]\nuse crate::request::{RequestArray, RequestBit, RequestField, RequestWord};\n#[allow(unused_imports)]\nuse crate::response::{ResponseArray, ResponseBit, ResponseField, ResponseWord};\nuse crate::serialize::Serialize;\n\nuse crate::types::*;",
    );
    s.append("\n\n");
    s.append(
        write_struct_decl(
            struct_name.as_str(),
            &structure.0,
            "Debug, PartialEq, Copy, Clone, Default",
        ).as_str(),
    );
    s.append("\n");
    s.append(write_serialize_impl(struct_name.as_str(), &structure.0, common_structures).as_str());
    s.append("\n");
    s.append(write_deserialize_impl(struct_name.as_str(), &structure.0).as_str());
    s
}

} // verus!
