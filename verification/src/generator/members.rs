//! The members of a request, a response or a common structure: named fields,
//! each name used once, kept in the order they were added.

use vstd::prelude::*;
use vstd::std_specs::iter::IteratorSpec;

use crate::bit_spec::{BitSpec, BitSpecV, Repeat};
use crate::bit_spec::{spec_word_count, RepeatV};
use crate::generator::field::{
    field_bit_spec, field_deserializable, field_deserialization_text, field_serializable,
    field_serialization_text, member_declarable, member_text, spec_word_range, word_range,
    word_range_defined, word_range_is_defined, Field, WordRange,
};
use crate::generator::common_structure::{
    bit_field_extent, bit_field_is_sized, bit_field_sized, is_plain_sized, plain_buffer_size,
    plain_sized, structure_named, CommonStructure, CommonStructures,
};
use crate::generator::order::{
    bit_spec_key, bit_spec_key_of, is_ordering, keeps_ties, keys_sorted, same_bit_spec, sort_keys,
    stable_order,
};
use crate::text::dec;
use crate::text::decimal;
use vstd::string::*;

verus! {

/// Named fields, each name used once.
#[derive(Debug)]
pub struct Members(Vec<(String, Field)>);

/// The entries of a list of named fields, each name taken by its text.
pub open spec fn entry_views(v: Seq<(String, Field)>) -> Seq<(Seq<char>, Field)> {
    v.map_values(|e: (String, Field)| (e.0@, e.1))
}

/// Whether no name occurs twice.
pub open spec fn names_distinct(e: Seq<(Seq<char>, Field)>) -> bool {
    forall|a: int, b: int| 0 <= a < b < e.len() ==> #[trigger] e[a].0 != #[trigger] e[b].0
}

/// The position of the first entry from `i` on named `name`, if any.
pub open spec fn index_of_name(e: Seq<(Seq<char>, Field)>, name: Seq<char>, i: int) -> Option<int>
    decreases e.len() - i,
{
    if i < 0 || i >= e.len() {
        None
    } else if e[i].0 == name {
        Some(i)
    } else {
        index_of_name(e, name, i + 1)
    }
}

/// The entries after a field is added under `name`: it replaces the field of
/// that name, or else comes last.
pub open spec fn insert_entry(e: Seq<(Seq<char>, Field)>, name: Seq<char>, field: Field) -> Seq<
    (Seq<char>, Field),
> {
    match index_of_name(e, name, 0) {
        Some(k) => e.update(k, (name, field)),
        None => e.push((name, field)),
    }
}

/// The position of the first entry from `i` on whose field has the bit
/// specification `b`, if any.
pub open spec fn index_of_bit_spec(e: Seq<(Seq<char>, Field)>, b: BitSpecV, i: int) -> Option<int>
    decreases e.len() - i,
{
    if i < 0 || i >= e.len() {
        None
    } else if field_bit_spec(e[i].1)@ == b {
        Some(i)
    } else {
        index_of_bit_spec(e, b, i + 1)
    }
}

/// What is found at an index from `i` on lies between `i` and the end.
pub proof fn lemma_index_of_name_bounds(e: Seq<(Seq<char>, Field)>, name: Seq<char>, i: int)
    requires
        0 <= i,
    ensures
        index_of_name(e, name, i) matches Some(k) ==> i <= k < e.len() && e[k].0 == name,
        index_of_name(e, name, i) is None ==> forall|k: int| i <= k < e.len() ==> e[k].0 != name,
    decreases e.len() - i,
{
    if i < e.len() && e[i].0 != name {
        lemma_index_of_name_bounds(e, name, i + 1);
    }
}

/// What is found at an index from `i` on lies between `i` and the end.
pub proof fn lemma_index_of_bit_spec_bounds(e: Seq<(Seq<char>, Field)>, b: BitSpecV, i: int)
    requires
        0 <= i,
    ensures
        index_of_bit_spec(e, b, i) matches Some(k) ==> i <= k < e.len() && field_bit_spec(
            e[k].1,
        )@ == b,
    decreases e.len() - i,
{
    if i < e.len() && field_bit_spec(e[i].1)@ != b {
        lemma_index_of_bit_spec_bounds(e, b, i + 1);
    }
}

/// One after the last word of a bit field whose repetitions are fixed; zero
/// for other fields.
pub open spec fn fixed_extent(f: Field) -> int {
    match f {
        Field::BitField { bit_spec, .. } => match spec_word_range(bit_spec@) {
            WordRange::Fixed(_, last) => last + 1,
            WordRange::Variable(_) => 0,
        },
        Field::Structure { .. } => 0,
    }
}

/// The largest fixed extent among the fields, or zero.
pub open spec fn max_fixed_extent(e: Seq<(Seq<char>, Field)>) -> int
    decreases e.len(),
{
    if e.len() == 0 {
        0
    } else {
        let rest = max_fixed_extent(e.drop_last());
        let x = fixed_extent(e.last().1);
        if x > rest {
            x
        } else {
            rest
        }
    }
}

/// Where a bit field repeats a fixed number of times (once when it does not
/// repeat), one after the last word it covers: its start, plus its words
/// per repetition times its repetitions.
pub open spec fn fixed_field_end(f: Field) -> Option<int> {
    match f {
        Field::BitField { bit_spec, .. } => match bit_spec@.repeat {
            RepeatV::NoRepeat => Some(bit_spec@.start.index + spec_word_count(bit_spec@)),
            RepeatV::Fixed { number } => Some(
                bit_spec@.start.index + spec_word_count(bit_spec@) * number,
            ),
            _ => None,
        },
        Field::Structure { .. } => None,
    }
}

/// Whether the word range of every bit field can be computed.
pub open spec fn word_ranges_defined(e: Seq<(Seq<char>, Field)>) -> bool {
    forall|k: int|
        0 <= k < e.len() ==> match #[trigger] e[k].1 {
            Field::BitField { bit_spec, .. } => word_range_defined(bit_spec@),
            Field::Structure { .. } => true,
        }
}

/// The fixed extent of a field is where it ends, when it repeats a fixed
/// number of times, and zero otherwise.
proof fn lemma_fixed_extent_is_end(f: Field)
    requires
        match f {
            Field::BitField { bit_spec, .. } => word_range_defined(bit_spec@),
            Field::Structure { .. } => true,
        },
    ensures
        match fixed_field_end(f) {
            Some(x) => fixed_extent(f) == x,
            None => fixed_extent(f) == 0,
        },
{
}

/// Law: the fixed size of a set of members, the number of bytes a request
/// serializes before its variable parts, reaches one past the last word of
/// every bit field with a fixed number of repetitions, and is the end of one
/// of them (or zero when there is none).
pub proof fn law_fixed_size_covers_fixed_fields(e: Seq<(Seq<char>, Field)>)
    requires
        word_ranges_defined(e),
    ensures
        forall|k: int|
            0 <= k < e.len() ==> (#[trigger] fixed_field_end(e[k].1) matches Some(x) ==> x
                <= max_fixed_extent(e)),
        max_fixed_extent(e) == 0 || exists|k: int|
            0 <= k < e.len() && #[trigger] fixed_field_end(e[k].1) == Some(max_fixed_extent(e)),
    decreases e.len(),
{
    if e.len() > 0 {
        let d = e.drop_last();
        assert forall|k: int| 0 <= k < d.len() implies match #[trigger] d[k].1 {
            Field::BitField { bit_spec, .. } => word_range_defined(bit_spec@),
            Field::Structure { .. } => true,
        } by {
            assert(d[k] == e[k]);
        }
        law_fixed_size_covers_fixed_fields(d);
        let last = e.last();
        assert(e[e.len() - 1] == last);
        lemma_fixed_extent_is_end(last.1);
        assert forall|k: int| 0 <= k < e.len() implies (#[trigger] fixed_field_end(
            e[k].1,
        ) matches Some(x) ==> x <= max_fixed_extent(e)) by {
            if k < e.len() - 1 {
                assert(d[k] == e[k]);
            }
        }
        if max_fixed_extent(e) != 0 {
            if fixed_extent(last.1) > max_fixed_extent(d) {
                assert(fixed_field_end(e[e.len() - 1].1) == Some(max_fixed_extent(e)));
            } else {
                let k = choose|k: int|
                    0 <= k < d.len() && #[trigger] fixed_field_end(d[k].1) == Some(
                        max_fixed_extent(d),
                    );
                assert(d[k] == e[k]);
                assert(fixed_field_end(e[k].1) == Some(max_fixed_extent(e)));
            }
        }
    }
}

/// The bit specification of the count of a bit field with a dependent
/// repeat.
pub open spec fn dependent_counter(f: Field) -> Option<BitSpecV> {
    match f {
        Field::BitField { bit_spec, .. } => match bit_spec@.repeat {
            RepeatV::Dependent { bit_spec: c, .. } => Some(*c),
            _ => None,
        },
        Field::Structure { .. } => None,
    }
}

/// For each field of `e` with a dependent repeat, in order: the number of
/// words of one repetition and the name of the member, among `all`, that
/// holds the count.
pub open spec fn variable_sizes(e: Seq<(Seq<char>, Field)>, all: Seq<(Seq<char>, Field)>) -> Seq<
    (int, Seq<char>),
>
    decreases e.len(),
{
    if e.len() == 0 {
        Seq::empty()
    } else {
        let rest = variable_sizes(e.drop_last(), all);
        match dependent_counter(e.last().1) {
            Some(c) => rest.push(
                (
                    spec_word_count(field_bit_spec(e.last().1)@),
                    all[index_of_bit_spec(all, c, 0).unwrap()].0,
                ),
            ),
            None => rest,
        }
    }
}

/// Whether the sizes of the members can be computed: every bit field's word
/// range is defined, and the count of every dependent repeat is a member.
pub open spec fn sizes_defined(e: Seq<(Seq<char>, Field)>) -> bool {
    forall|k: int|
        0 <= k < e.len() ==> match #[trigger] e[k].1 {
            Field::BitField { bit_spec, .. } => word_range_defined(bit_spec@) && fixed_extent(e[k].1)
                <= usize::MAX && (dependent_counter(e[k].1) matches Some(c) ==> index_of_bit_spec(
                e,
                c,
                0,
            ) is Some),
            Field::Structure { .. } => true,
        }
}

/// One after the last byte that a field needs: for a bit field, its start
/// and the size of its largest array; for a common structure, its start and
/// the structure's buffer size.
pub open spec fn field_extent(f: Field, cs: Seq<(Seq<char>, CommonStructure)>) -> int {
    match f {
        Field::BitField { bit_spec, .. } => bit_field_extent(bit_spec@),
        Field::Structure { common_structure_name, bit_spec, .. } => bit_spec@.start.index
            + plain_buffer_size(structure_named(cs, common_structure_name@).unwrap().0.entries()),
    }
}

/// The bytes that a buffer for the members needs: one after the last byte
/// of any field, or zero.
pub open spec fn buffer_size_of(e: Seq<(Seq<char>, Field)>, cs: Seq<(Seq<char>, CommonStructure)>) -> int
    decreases e.len(),
{
    if e.len() == 0 {
        0
    } else {
        let rest = buffer_size_of(e.drop_last(), cs);
        let x = field_extent(e.last().1, cs);
        if x > rest {
            x
        } else {
            rest
        }
    }
}

/// Whether the buffer size of the members can be computed: each bit field
/// has a size, and each common structure is among `cs`, made of bit fields
/// with sizes, and ends at a byte that exists.
pub open spec fn buffer_sized(e: Seq<(Seq<char>, Field)>, cs: Seq<(Seq<char>, CommonStructure)>) -> bool {
    forall|k: int|
        0 <= k < e.len() ==> match #[trigger] e[k].1 {
            Field::BitField { bit_spec, .. } => bit_field_sized(bit_spec@),
            Field::Structure { common_structure_name, .. } => structure_named(
                cs,
                common_structure_name@,
            ) matches Some(c) && plain_sized(c.0.entries()) && field_extent(e[k].1, cs)
                <= usize::MAX,
        }
}

/// The keys of the bit specifications of the members.
pub open spec fn member_keys(e: Seq<(Seq<char>, Field)>) -> Seq<Seq<u64>> {
    e.map_values(|x: (Seq<char>, Field)| bit_spec_key(field_bit_spec(x.1)@))
}

/// Whether `order` lists the members by the order of their bit
/// specifications, members that rank together in the order they were added.
pub open spec fn sorted_by_bit_spec(e: Seq<(Seq<char>, Field)>, order: Seq<usize>) -> bool {
    &&& is_ordering(order, e.len() as int)
    &&& keys_sorted(member_keys(e), order)
    &&& keeps_ties(member_keys(e), order)
}

/// The expression for the number of bytes a request serializes: the fixed
/// size, then for each repeat that a member counts, its words times that
/// member.
pub open spec fn size_expression(fixed: int, sizes: Seq<(int, Seq<char>)>) -> Seq<char>
    decreases sizes.len(),
{
    if sizes.len() == 0 {
        dec(fixed as nat)
    } else {
        size_expression(fixed, sizes.drop_last()) + " + ("@ + dec(sizes.last().0 as nat)
            + " * self."@ + sizes.last().1 + " as usize)"@
    }
}

/// Law: the buffer of a set of members holds every field: each field ends at
/// or before the buffer size.
pub proof fn law_buffer_holds_every_field(
    e: Seq<(Seq<char>, Field)>,
    cs: Seq<(Seq<char>, CommonStructure)>,
    k: int,
)
    requires
        0 <= k < e.len(),
    ensures
        field_extent(e[k].1, cs) <= buffer_size_of(e, cs),
    decreases e.len(),
{
    if k < e.len() - 1 {
        law_buffer_holds_every_field(e.drop_last(), cs, k);
        assert(e.drop_last()[k] == e[k]);
    }
}

/// Law: after a field is added under a name, looking the name up gives that
/// field, and every other name gives what it gave before.
pub proof fn law_add_then_lookup(
    e: Seq<(Seq<char>, Field)>,
    name: Seq<char>,
    field: Field,
    other: Seq<char>,
)
    requires
        names_distinct(e),
        other != name,
    ensures
        index_of_name(insert_entry(e, name, field), name, 0) matches Some(k) && insert_entry(
            e,
            name,
            field,
        )[k].1 == field,
        match index_of_name(e, other, 0) {
            Some(j) => index_of_name(insert_entry(e, name, field), other, 0) == Some(j)
                && insert_entry(e, name, field)[j] == e[j],
            None => index_of_name(insert_entry(e, name, field), other, 0) is None,
        },
        names_distinct(insert_entry(e, name, field)),
{
    let n = insert_entry(e, name, field);
    lemma_index_of_name_bounds(e, name, 0);
    lemma_index_of_name_bounds(e, other, 0);
    lemma_index_of_name_bounds(n, name, 0);
    lemma_index_of_name_bounds(n, other, 0);
    match index_of_name(e, name, 0) {
        Some(k) => {
            assert(n[k].0 == name);
            lemma_first_name(n, name, k);
            match index_of_name(e, other, 0) {
                Some(j) => {
                    assert(n[j] == e[j]);
                    lemma_first_name(n, other, j);
                },
                None => {
                    assert forall|t: int| 0 <= t < n.len() implies n[t].0 != other by {
                        if t != k {
                            assert(n[t] == e[t]);
                        }
                    }
                    lemma_no_name(n, other, 0);
                },
            }
            assert forall|a: int, b: int| 0 <= a < b < n.len() implies #[trigger] n[a].0
                != #[trigger] n[b].0 by {
                assert(e[a].0 != e[b].0);
            }
        },
        None => {
            assert(n[e.len() as int].0 == name);
            lemma_first_name(n, name, e.len() as int);
            match index_of_name(e, other, 0) {
                Some(j) => {
                    assert(n[j] == e[j]);
                    lemma_first_name(n, other, j);
                },
                None => {
                    lemma_no_name(n, other, 0);
                },
            }
            assert forall|a: int, b: int| 0 <= a < b < n.len() implies #[trigger] n[a].0
                != #[trigger] n[b].0 by {
                if b < e.len() {
                    assert(e[a].0 != e[b].0);
                }
            }
        },
    }
}

/// The first position with a name is where it stands when no earlier
/// position has it.
proof fn lemma_first_name(e: Seq<(Seq<char>, Field)>, name: Seq<char>, k: int)
    requires
        0 <= k < e.len(),
        e[k].0 == name,
        forall|t: int| 0 <= t < k ==> e[t].0 != name,
    ensures
        index_of_name(e, name, 0) == Some(k),
{
    lemma_first_name_from(e, name, k, 0);
}

/// The first position from `i` with a name is `k` when no position between
/// them has it.
proof fn lemma_first_name_from(e: Seq<(Seq<char>, Field)>, name: Seq<char>, k: int, i: int)
    requires
        0 <= i <= k < e.len(),
        e[k].0 == name,
        forall|t: int| i <= t < k ==> e[t].0 != name,
    ensures
        index_of_name(e, name, i) == Some(k),
    decreases k - i,
{
    if i < k {
        lemma_first_name_from(e, name, k, i + 1);
    }
}

/// A name that no position from `i` on has is not found.
proof fn lemma_no_name(e: Seq<(Seq<char>, Field)>, name: Seq<char>, i: int)
    requires
        0 <= i,
        forall|t: int| i <= t < e.len() ==> e[t].0 != name,
    ensures
        index_of_name(e, name, i) is None,
    decreases e.len() - i,
{
    if i < e.len() {
        lemma_no_name(e, name, i + 1);
    }
}

impl Members {
    /// No name occurs twice.
    #[verifier::type_invariant]
    spec fn distinct(&self) -> bool {
        names_distinct(entry_views(self.0@))
    }

    /// The named fields, in the order they were added.
    pub closed spec fn entries(&self) -> Seq<(Seq<char>, Field)> {
        entry_views(self.0@)
    }

    /// No members.
    pub fn new() -> (r: Members)
        ensures
            r.entries() == Seq::<(Seq<char>, Field)>::empty(),
    {
        let r = Members(Vec::new());
        assert(r.entries() =~= Seq::<(Seq<char>, Field)>::empty());
        r
    }

    /// The position of the member named `name`, if there is one.
    fn position_of_name(&self, name: &str) -> (r: Option<usize>)
        ensures
            match r {
                Some(k) => index_of_name(self.entries(), name@, 0) == Some(k as int),
                None => index_of_name(self.entries(), name@, 0) is None,
            },
    {
        let ghost e = self.entries();
        let mut i: usize = 0;
        while i < self.0.len()
            invariant
                0 <= i <= self.0@.len(),
                e == entry_views(self.0@),
                index_of_name(e, name@, 0) == index_of_name(e, name@, i as int),
            decreases self.0@.len() - i,
        {
            if crate::text::same_text(self.0[i].0.as_str(), name) {
                assert(e[i as int].0 == name@);
                return Some(i);
            }
            i = i + 1;
        }
        None
    }

    /// Adds `field` under `name`, replacing the field of that name if there
    /// is one.
    pub fn add(&mut self, name: &str, field: Field)
        ensures
            final(self).entries() == insert_entry(old(self).entries(), name@, field),
    {
        proof {
            use_type_invariant(&*self);
        }
        let ghost e = self.entries();
        proof {
            lemma_index_of_name_bounds(e, name@, 0);
        }
        let found = self.position_of_name(name);
        let mut entries = Vec::new();
        std::mem::swap(&mut entries, &mut self.0);
        assert(entry_views(entries@) == e);
        match found {
            Some(i) => {
                entries.set(i, (String::from_str(name), field));
                proof {
                    assert(e[i as int].0 == name@);
                    assert(entry_views(entries@) =~= e.update(i as int, (name@, field)));
                    assert forall|a: int, b: int|
                        0 <= a < b < entries@.len() implies #[trigger] entry_views(entries@)[a].0
                        != #[trigger] entry_views(entries@)[b].0 by {
                        assert(e[a].0 != e[b].0);
                        assert(entry_views(entries@)[a].0 == e[a].0);
                        assert(entry_views(entries@)[b].0 == e[b].0);
                    }
                }
            },
            None => {
                entries.push((String::from_str(name), field));
                proof {
                    assert(entry_views(entries@) =~= e.push((name@, field)));
                    assert forall|a: int, b: int|
                        0 <= a < b < entries@.len() implies #[trigger] entry_views(entries@)[a].0
                        != #[trigger] entry_views(entries@)[b].0 by {
                        if b < e.len() {
                            assert(e[a].0 != e[b].0);
                        } else {
                            assert(e[a].0 != name@);
                        }
                    }
                }
            },
        }
        self.0 = entries;
    }

    /// The size of the members: one after the last word of the fields whose
    /// words are fixed, and, for each field whose repetitions another member
    /// counts, the number of words of one repetition and that member's name.
    pub fn size(&self) -> (r: (usize, Vec<(usize, String)>))
        requires
            sizes_defined(self.entries()),
        ensures
            r.0 == max_fixed_extent(self.entries()),
            r.1@.map_values(|v: (usize, String)| (v.0 as int, v.1@)) == variable_sizes(
                self.entries(),
                self.entries(),
            ),
    {
        let ghost e = self.entries();
        let mut fixed: usize = 0;
        let mut sizes: Vec<(usize, String)> = Vec::new();
        let mut i: usize = 0;
        while i < self.0.len()
            invariant
                0 <= i <= self.0@.len(),
                e == entry_views(self.0@),
                sizes_defined(e),
                fixed == max_fixed_extent(e.take(i as int)),
                sizes@.map_values(|v: (usize, String)| (v.0 as int, v.1@)) == variable_sizes(
                    e.take(i as int),
                    e,
                ),
            decreases self.0@.len() - i,
        {
            let ghost before = sizes@;
            assert(e.take(i + 1).drop_last() =~= e.take(i as int));
            assert(e.take(i + 1).last() == e[i as int]);
            let field = &self.0[i].1;
            assert(*field == e[i as int].1);
            if let Field::BitField { bit_spec, .. } = field {
                if let WordRange::Fixed(_, last) = word_range(bit_spec) {
                    if last + 1 > fixed {
                        fixed = last + 1;
                    }
                }
                if let Repeat::Dependent { bit_spec: counter, .. } = &bit_spec.repeat {
                    proof {
                        lemma_index_of_bit_spec_bounds(e, counter@, 0);
                    }
                    let count: usize = match &bit_spec.end {
                        None => 1,
                        Some(w) => w.index - bit_spec.start.index + 1,
                    };
                    let found = self.find_field_by_bitspec(counter);
                    let (name, _) = found.unwrap();
                    sizes.push((count, String::from_str(name)));
                    proof {
                        assert(sizes@.map_values(|v: (usize, String)| (v.0 as int, v.1@))
                            =~= before.map_values(|v: (usize, String)| (v.0 as int, v.1@)).push(
                            (count as int, name@),
                        ));
                    }
                }
            }
            i = i + 1;
        }
        assert(e.take(i as int) =~= e);
        (fixed, sizes)
    }

    /// The size in bytes of a buffer that holds the members: one after the
    /// last byte that any of them needs.
    pub fn buffer_size(&self, common_structures: &CommonStructures) -> (r: usize)
        requires
            buffer_sized(self.entries(), common_structures.entries()),
        ensures
            r == buffer_size_of(self.entries(), common_structures.entries()),
    {
        let ghost e = self.entries();
        let ghost cs = common_structures.entries();
        let mut size: usize = 0;
        let mut i: usize = 0;
        while i < self.0.len()
            invariant
                0 <= i <= self.0@.len(),
                e == entry_views(self.0@),
                cs == common_structures.entries(),
                buffer_sized(e, cs),
                size == buffer_size_of(e.take(i as int), cs),
            decreases self.0@.len() - i,
        {
            assert(e.take(i + 1).drop_last() =~= e.take(i as int));
            assert(e.take(i + 1).last() == e[i as int]);
            let field = &self.0[i].1;
            assert(*field == e[i as int].1);
            let x = match field {
                Field::BitField { bit_spec, .. } => bit_spec.start.index + bit_spec.max_size(),
                Field::Structure { common_structure_name, bit_spec, .. } => {
                    let c = common_structures.get(common_structure_name.as_str()).unwrap();
                    bit_spec.start.index + c.buffer_size()
                },
            };
            if x > size {
                size = x;
            }
            i = i + 1;
        }
        assert(e.take(i as int) =~= e);
        size
    }

    /// The positions of the members, listed by the order of their bit
    /// specifications; members that rank together keep the order in which
    /// they were added.
    pub fn sorted_order(&self) -> (r: Vec<usize>)
        ensures
            r@ == stable_order(member_keys(self.entries())),
            sorted_by_bit_spec(self.entries(), r@),
    {
        let ghost e = self.entries();
        let mut keys: Vec<Vec<u64>> = Vec::new();
        let mut i: usize = 0;
        while i < self.0.len()
            invariant
                0 <= i <= self.0@.len(),
                e == entry_views(self.0@),
                keys@.len() == i,
                forall|t: int| 0 <= t < i ==> (#[trigger] keys@[t])@ == member_keys(e)[t],
            decreases self.0@.len() - i,
        {
            let k = bit_spec_key_of(self.0[i].1.bit_spec());
            assert(self.0@[i as int].1 == e[i as int].1);
            assert(k@ == member_keys(e)[i as int]);
            keys.push(k);
            i = i + 1;
        }
        assert(keys@.map_values(|k: Vec<u64>| k@) =~= member_keys(e));
        sort_keys(&keys)
    }

    /// The declarations of the members, listed by the order of their bit
    /// specifications.
    pub fn generate_members(&self) -> (r: Vec<String>)
        requires
            forall|k: int|
                0 <= k < self.entries().len() ==> #[trigger] member_declarable(
                    self.entries()[k].1,
                ),
        ensures
            ({
                let order = stable_order(member_keys(self.entries()));
                &&& sorted_by_bit_spec(self.entries(), order)
                &&& r@.len() == order.len()
                &&& forall|j: int|
                    0 <= j < order.len() ==> (#[trigger] r@[j])@ == member_text(
                        self.entries()[order[j] as int].1,
                        self.entries()[order[j] as int].0,
                    )
            }),
    {
        let ghost e = self.entries();
        let order = self.sorted_order();
        let mut out: Vec<String> = Vec::new();
        let mut j: usize = 0;
        while j < order.len()
            invariant
                0 <= j <= order@.len(),
                e == entry_views(self.0@),
                sorted_by_bit_spec(e, order@),
                forall|k: int| 0 <= k < e.len() ==> #[trigger] member_declarable(e[k].1),
                out@.len() == j,
                forall|t: int|
                    0 <= t < j ==> (#[trigger] out@[t])@ == member_text(
                        e[order@[t] as int].1,
                        e[order@[t] as int].0,
                    ),
            decreases order@.len() - j,
        {
            let k = order[j];
            assert(k < e.len());
            assert(self.0@[k as int].1 == e[k as int].1);
            assert(self.0@[k as int].0@ == e[k as int].0);
            assert(member_declarable(e[k as int].1));
            let line = self.0[k].1.generate_struct_member(self.0[k].0.as_str());
            out.push(line);
            j = j + 1;
        }
        out
    }

    /// The statements that write the members to a request's bytes, listed by
    /// the order of their bit specifications, and the expression for the
    /// number of bytes written.
    pub fn generate_serializations(&self, common_structures: &CommonStructures) -> (r: (
        Vec<String>,
        String,
    ))
        requires
            forall|k: int|
                0 <= k < self.entries().len() ==> #[trigger] field_serializable(
                    self.entries()[k].1,
                    common_structures.entries(),
                ),
            sizes_defined(self.entries()),
        ensures
            r.1@ == size_expression(
                max_fixed_extent(self.entries()),
                variable_sizes(self.entries(), self.entries()),
            ),
            ({
                let order = stable_order(member_keys(self.entries()));
                &&& sorted_by_bit_spec(self.entries(), order)
                &&& r.0@.len() == order.len()
                &&& forall|j: int|
                    0 <= j < order.len() ==> (#[trigger] r.0@[j])@ == field_serialization_text(
                        self.entries()[order[j] as int].1,
                        self.entries()[order[j] as int].0,
                        self.entries(),
                        common_structures.entries(),
                    )
            }),
    {
        let ghost e = self.entries();
        let ghost cs = common_structures.entries();
        let order = self.sorted_order();
        let mut out: Vec<String> = Vec::new();
        let mut j: usize = 0;
        while j < order.len()
            invariant
                0 <= j <= order@.len(),
                e == entry_views(self.0@),
                e == self.entries(),
                cs == common_structures.entries(),
                sorted_by_bit_spec(e, order@),
                forall|k: int| 0 <= k < e.len() ==> #[trigger] field_serializable(e[k].1, cs),
                out@.len() == j,
                forall|t: int|
                    0 <= t < j ==> (#[trigger] out@[t])@ == field_serialization_text(
                        e[order@[t] as int].1,
                        e[order@[t] as int].0,
                        e,
                        cs,
                    ),
            decreases order@.len() - j,
        {
            let k = order[j];
            assert(k < e.len());
            assert(self.0@[k as int].1 == e[k as int].1);
            assert(self.0@[k as int].0@ == e[k as int].0);
            assert(field_serializable(e[k as int].1, cs));
            let line = self.0[k].1.generate_field_serialization(
                self.0[k].0.as_str(),
                self,
                common_structures,
            );
            out.push(line);
            j = j + 1;
        }
        let expression = self.generate_serialization_size_expression();
        (out, expression)
    }

    /// The expression for the number of bytes a request serializes.
    fn generate_serialization_size_expression(&self) -> (r: String)
        requires
            sizes_defined(self.entries()),
        ensures
            r@ == size_expression(
                max_fixed_extent(self.entries()),
                variable_sizes(self.entries(), self.entries()),
            ),
    {
        let (fixed, sizes) = self.size();
        let ghost vs = sizes@.map_values(|v: (usize, String)| (v.0 as int, v.1@));
        let mut s = decimal(fixed);
        proof {
            reveal_strlit(" + (");
            reveal_strlit(" * self.");
            reveal_strlit(" as usize)");
        }
        let mut i: usize = 0;
        while i < sizes.len()
            invariant
                0 <= i <= sizes@.len(),
                vs == sizes@.map_values(|v: (usize, String)| (v.0 as int, v.1@)),
                s@ == size_expression(fixed as int, vs.take(i as int)),
            decreases sizes@.len() - i,
        {
            assert(vs.take(i + 1).drop_last() =~= vs.take(i as int));
            assert(vs.take(i + 1).last() == vs[i as int]);
            s.append(" + (");
            let n = decimal(sizes[i].0);
            s.append(n.as_str());
            s.append(" * self.");
            s.append(sizes[i].1.as_str());
            s.append(" as usize)");
            i = i + 1;
        }
        assert(vs.take(i as int) =~= vs);
        s
    }

    /// The statements that read the members from a response's bytes into
    /// variables named after them, listed by the order of their bit
    /// specifications.
    pub fn generate_deserializations(&self) -> (r: Vec<String>)
        requires
            forall|k: int|
                0 <= k < self.entries().len() ==> #[trigger] field_deserializable(
                    self.entries()[k].1,
                    self.entries(),
                ),
        ensures
            ({
                let order = stable_order(member_keys(self.entries()));
                &&& sorted_by_bit_spec(self.entries(), order)
                &&& r@.len() == order.len()
                &&& forall|j: int|
                    0 <= j < order.len() ==> (#[trigger] r@[j])@ == "let "@ + self.entries()[order[j] as int].0
                        + " = "@ + field_deserialization_text(
                        self.entries()[order[j] as int].1,
                        self.entries()[order[j] as int].0,
                        self.entries(),
                    )
            }),
    {
        let ghost e = self.entries();
        let order = self.sorted_order();
        let mut out: Vec<String> = Vec::new();
        let mut j: usize = 0;
        proof {
            reveal_strlit("let ");
            reveal_strlit(" = ");
        }
        while j < order.len()
            invariant
                0 <= j <= order@.len(),
                e == entry_views(self.0@),
                e == self.entries(),
                sorted_by_bit_spec(e, order@),
                forall|k: int| 0 <= k < e.len() ==> #[trigger] field_deserializable(e[k].1, e),
                out@.len() == j,
                forall|t: int|
                    0 <= t < j ==> (#[trigger] out@[t])@ == "let "@ + e[order@[t] as int].0
                        + " = "@ + field_deserialization_text(
                        e[order@[t] as int].1,
                        e[order@[t] as int].0,
                        e,
                    ),
            decreases order@.len() - j,
        {
            let k = order[j];
            assert(k < e.len());
            assert(self.0@[k as int].1 == e[k as int].1);
            assert(self.0@[k as int].0@ == e[k as int].0);
            assert(field_deserializable(e[k as int].1, e));
            let code = self.0[k].1.generate_field_deserialization(self.0[k].0.as_str(), self);
            let mut line = String::from_str("let ");
            line.append(self.0[k].0.as_str());
            line.append(" = ");
            line.append(code.as_str());
            out.push(line);
            j = j + 1;
        }
        out
    }

    /// The names and fields of the members, in the order they were added.
    pub fn to_vec(&self) -> (r: Vec<(&String, &Field)>)
        ensures
            r@.len() == self.entries().len(),
            forall|k: int|
                0 <= k < r@.len() ==> (#[trigger] r@[k]).0@ == self.entries()[k].0 && *r@[k].1
                    == self.entries()[k].1,
    {
        let ghost e = self.entries();
        let mut out: Vec<(&String, &Field)> = Vec::new();
        let mut i: usize = 0;
        while i < self.0.len()
            invariant
                0 <= i <= self.0@.len(),
                e == entry_views(self.0@),
                out@.len() == i,
                forall|k: int|
                    0 <= k < i ==> (#[trigger] out@[k]).0@ == e[k].0 && *out@[k].1 == e[k].1,
            decreases self.0@.len() - i,
        {
            out.push((&self.0[i].0, &self.0[i].1));
            i = i + 1;
        }
        out
    }

    /// The fields of the members, in the order they were added.
    pub fn fields(&self) -> (r: Vec<&Field>)
        ensures
            r@.len() == self.entries().len(),
            forall|k: int| 0 <= k < r@.len() ==> *(#[trigger] r@[k]) == self.entries()[k].1,
    {
        let ghost e = self.entries();
        let mut out: Vec<&Field> = Vec::new();
        let mut i: usize = 0;
        while i < self.0.len()
            invariant
                0 <= i <= self.0@.len(),
                e == entry_views(self.0@),
                out@.len() == i,
                forall|k: int| 0 <= k < i ==> *(#[trigger] out@[k]) == e[k].1,
            decreases self.0@.len() - i,
        {
            out.push(&self.0[i].1);
            i = i + 1;
        }
        out
    }

    /// Whether the sizes of the members can be computed.
    pub fn sizes_are_defined(&self) -> (r: bool)
        ensures
            r == sizes_defined(self.entries()),
    {
        let ghost e = self.entries();
        let mut i: usize = 0;
        while i < self.0.len()
            invariant
                0 <= i <= self.0@.len(),
                e == entry_views(self.0@),
                e == self.entries(),
                forall|k: int|
                    0 <= k < i ==> match #[trigger] e[k].1 {
                        Field::BitField { bit_spec, .. } => word_range_defined(bit_spec@)
                            && fixed_extent(e[k].1) <= usize::MAX && (dependent_counter(e[k].1) matches Some(
                            c,
                        ) ==> index_of_bit_spec(e, c, 0) is Some),
                        Field::Structure { .. } => true,
                    },
            decreases self.0@.len() - i,
        {
            let field = &self.0[i].1;
            assert(*field == e[i as int].1);
            if let Field::BitField { bit_spec, .. } = field {
                if !word_range_is_defined(bit_spec) {
                    return false;
                }
                if let WordRange::Fixed(_, last) = word_range(bit_spec) {
                    if last == usize::MAX {
                        return false;
                    }
                }
                if let Repeat::Dependent { bit_spec: counter, .. } = &bit_spec.repeat {
                    proof {
                        lemma_index_of_bit_spec_bounds(e, counter@, 0);
                    }
                    if self.find_field_by_bitspec(counter).is_none() {
                        return false;
                    }
                }
            }
            i = i + 1;
        }
        true
    }

    /// Whether every member can be declared.
    pub fn all_declarable(&self) -> (r: bool)
        ensures
            r == forall|k: int|
                0 <= k < self.entries().len() ==> #[trigger] member_declarable(
                    self.entries()[k].1,
                ),
    {
        let ghost e = self.entries();
        let mut i: usize = 0;
        while i < self.0.len()
            invariant
                0 <= i <= self.0@.len(),
                e == entry_views(self.0@),
                e == self.entries(),
                forall|k: int| 0 <= k < i ==> #[trigger] member_declarable(e[k].1),
            decreases self.0@.len() - i,
        {
            assert(self.0@[i as int].1 == e[i as int].1);
            if !self.0[i].1.is_declarable() {
                return false;
            }
            i = i + 1;
        }
        true
    }

    /// Whether every member can be written and the size of the members
    /// computed.
    pub fn all_serializable(&self, common_structures: &CommonStructures) -> (r: bool)
        ensures
            r == ((forall|k: int|
                0 <= k < self.entries().len() ==> #[trigger] field_serializable(
                    self.entries()[k].1,
                    common_structures.entries(),
                )) && sizes_defined(self.entries())),
    {
        let ghost e = self.entries();
        let ghost cs = common_structures.entries();
        let mut i: usize = 0;
        while i < self.0.len()
            invariant
                0 <= i <= self.0@.len(),
                e == entry_views(self.0@),
                e == self.entries(),
                cs == common_structures.entries(),
                forall|k: int| 0 <= k < i ==> #[trigger] field_serializable(e[k].1, cs),
            decreases self.0@.len() - i,
        {
            assert(self.0@[i as int].1 == e[i as int].1);
            if !self.0[i].1.is_serializable(common_structures) {
                return false;
            }
            i = i + 1;
        }
        self.sizes_are_defined()
    }

    /// Whether every member can be read.
    pub fn all_deserializable(&self) -> (r: bool)
        ensures
            r == forall|k: int|
                0 <= k < self.entries().len() ==> #[trigger] field_deserializable(
                    self.entries()[k].1,
                    self.entries(),
                ),
    {
        let ghost e = self.entries();
        let mut i: usize = 0;
        while i < self.0.len()
            invariant
                0 <= i <= self.0@.len(),
                e == entry_views(self.0@),
                e == self.entries(),
                forall|k: int| 0 <= k < i ==> #[trigger] field_deserializable(e[k].1, e),
            decreases self.0@.len() - i,
        {
            assert(self.0@[i as int].1 == e[i as int].1);
            if !self.0[i].1.is_deserializable(self) {
                return false;
            }
            i = i + 1;
        }
        true
    }

    /// Whether the buffer size of the members can be computed.
    pub fn buffer_is_sized(&self, common_structures: &CommonStructures) -> (r: bool)
        ensures
            r == buffer_sized(self.entries(), common_structures.entries()),
    {
        let ghost e = self.entries();
        let ghost cs = common_structures.entries();
        let mut i: usize = 0;
        while i < self.0.len()
            invariant
                0 <= i <= self.0@.len(),
                e == entry_views(self.0@),
                e == self.entries(),
                cs == common_structures.entries(),
                forall|k: int|
                    0 <= k < i ==> match #[trigger] e[k].1 {
                        Field::BitField { bit_spec, .. } => bit_field_sized(bit_spec@),
                        Field::Structure { common_structure_name, .. } => structure_named(
                            cs,
                            common_structure_name@,
                        ) matches Some(c) && plain_sized(c.0.entries()) && field_extent(e[k].1, cs)
                            <= usize::MAX,
                    },
            decreases self.0@.len() - i,
        {
            let field = &self.0[i].1;
            assert(*field == e[i as int].1);
            match field {
                Field::BitField { bit_spec, .. } => {
                    if !bit_field_is_sized(bit_spec) {
                        return false;
                    }
                },
                Field::Structure { common_structure_name, bit_spec, .. } => {
                    match common_structures.get(common_structure_name.as_str()) {
                        Some(c) => {
                            if !is_plain_sized(&c.0) {
                                return false;
                            }
                            let size = c.buffer_size();
                            if size > usize::MAX - bit_spec.start.index {
                                return false;
                            }
                        },
                        None => {
                            return false;
                        },
                    }
                },
            }
            i = i + 1;
        }
        true
    }

    /// An iterator over the names and fields of the members, in the order
    /// they were added.
    pub fn iter(&self) -> (r: std::slice::Iter<'_, (String, Field)>)
        ensures
            entry_views(r.remaining().unref()) == self.entries(),
    {
        broadcast use vstd::std_specs::slice::axiom_spec_slice_iter;

        let r = self.0.as_slice().iter();
        assert(r.remaining().unref() =~= self.0@);
        r
    }

    /// The number of members.
    pub fn len(&self) -> (r: usize)
        ensures
            r == self.entries().len(),
    {
        self.0.len()
    }

    /// The name and the field of the member at `k`.
    pub fn entry(&self, k: usize) -> (r: (&str, &Field))
        requires
            k < self.entries().len(),
        ensures
            r.0@ == self.entries()[k as int].0,
            *r.1 == self.entries()[k as int].1,
    {
        (self.0[k].0.as_str(), &self.0[k].1)
    }

    /// The first member whose field has the bit specification `bit_spec`,
    /// with its name.
    pub fn find_field_by_bitspec(&self, bit_spec: &BitSpec) -> (r: Option<(&str, &Field)>)
        ensures
            match index_of_bit_spec(self.entries(), bit_spec@, 0) {
                Some(k) => r matches Some((n, f)) && n@ == self.entries()[k].0 && *f
                    == self.entries()[k].1,
                None => r is None,
            },
    {
        let ghost e = self.entries();
        let mut i: usize = 0;
        while i < self.0.len()
            invariant
                0 <= i <= self.0@.len(),
                e == entry_views(self.0@),
                index_of_bit_spec(e, bit_spec@, 0) == index_of_bit_spec(e, bit_spec@, i as int),
            decreases self.0@.len() - i,
        {
            let field = &self.0[i].1;
            if same_bit_spec(field.bit_spec(), bit_spec) {
                return Some((self.0[i].0.as_str(), field));
            }
            i = i + 1;
        }
        None
    }
}

} // verus!
