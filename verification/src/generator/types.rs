//! The enumerations that a definition declares, as generated code: an enum
//! whose first item is its default, and its conversion from a byte.

use vstd::prelude::*;
use vstd::string::*;

use crate::generator::case::{to_upper_camel, upper_camel_case};
use crate::generator::doc_comment::DocComment;
use crate::generator::field::{doc_of, doc_text};
use crate::generator::source_text::{generated_doc, generated_doc_text};
use crate::text::{dec, decimal};

verus! {

/// The lines of the items of an enumeration: each item's name in upper
/// camel case and its value, the first marked as the default.
pub open spec fn enum_items_text(items: Seq<(Seq<char>, u8)>) -> Seq<char>
    decreases items.len(),
{
    if items.len() == 0 {
        Seq::empty()
    } else {
        let last = items.last();
        let mark = if items.len() == 1 {
            "    #[default]\n"@
        } else {
            Seq::empty()
        };
        enum_items_text(items.drop_last()) + mark + "    "@ + upper_camel_case(last.0) + " = "@ + dec(
            last.1 as nat,
        ) + ",\n"@
    }
}

/// The arms that map each value of an enumeration to its item.
pub open spec fn enum_arms_text(items: Seq<(Seq<char>, u8)>) -> Seq<char>
    decreases items.len(),
{
    if items.len() == 0 {
        Seq::empty()
    } else {
        let last = items.last();
        enum_arms_text(items.drop_last()) + "            "@ + dec(last.1 as nat) + " => Ok(Self::"@
            + upper_camel_case(last.0) + "),\n"@
    }
}

/// The generated code of an enumeration named `identifier` (in upper camel
/// case) with the given items.
pub open spec fn enum_text(identifier: Seq<char>, items: Seq<(Seq<char>, u8)>) -> Seq<char> {
    "#[derive(PartialEq, Debug, Copy, Clone, Default)]\npub enum "@ + identifier + " {\n"@
        + enum_items_text(items) + "}\n\nimpl TryFrom<u8> for "@ + identifier
        + " {\n    type Error = DeviceError;\n    fn try_from(value: u8) -> Result<Self, Self::Error> {\n        match value {\n"@
        + enum_arms_text(items)
        + "            _ => Err(DeviceError::EnumConversion),\n        }\n    }\n}\n"@
}

/// Whether `w` occurs in `text`.
pub open spec fn occurs_in(w: Seq<char>, text: Seq<char>) -> bool {
    exists|i: int| 0 <= i && i + w.len() <= text.len() && #[trigger] text.subrange(i, i + w.len()) == w
}

/// What occurs in a text occurs in any text around it.
proof fn lemma_occurs_around(w: Seq<char>, x: Seq<char>, y: Seq<char>, z: Seq<char>)
    requires
        occurs_in(w, x),
    ensures
        occurs_in(w, y + x + z),
{
    let i = choose|i: int| 0 <= i && i + w.len() <= x.len() && #[trigger] x.subrange(i, i + w.len()) == w;
    let t = y + x + z;
    let j = y.len() + i;
    assert(t.subrange(j, j + w.len()) =~= x.subrange(i, i + w.len()));
}

/// A text occurs in itself.
proof fn lemma_occurs_self(w: Seq<char>)
    ensures
        occurs_in(w, w),
{
    let i: int = 0;
    assert(w.subrange(i, i + w.len()) =~= w);
}

/// The declaration of each item, with its own value, occurs among the item
/// lines.
#[verifier::rlimit(30)]
proof fn lemma_item_occurs(items: Seq<(Seq<char>, u8)>, k: int)
    requires
        0 <= k < items.len(),
    ensures
        occurs_in(
            "    "@ + upper_camel_case(items[k].0) + " = "@ + dec(items[k].1 as nat) + ",\n"@,
            enum_items_text(items),
        ),
    decreases items.len(),
{
    let last = items.last();
    let item = "    "@ + upper_camel_case(items[k].0) + " = "@ + dec(items[k].1 as nat) + ",\n"@;
    let mark = if items.len() == 1 {
        "    #[default]\n"@
    } else {
        Seq::empty()
    };
    let before = enum_items_text(items.drop_last());
    let rest = mark + "    "@ + upper_camel_case(last.0) + " = "@ + dec(last.1 as nat) + ",\n"@;
    assert(enum_items_text(items) == before + rest);
    if k < items.len() - 1 {
        lemma_item_occurs(items.drop_last(), k);
        assert(items.drop_last()[k] == items[k]);
        lemma_occurs_around(item, before, Seq::empty(), rest);
        assert(before + rest =~= Seq::empty() + before + rest);
    } else {
        assert(rest =~= mark + item);
        lemma_occurs_self(item);
        lemma_occurs_around(item, item, before + mark, Seq::empty());
        assert(before + rest =~= before + mark + item + Seq::empty());
    }
}

/// The arm that maps the value of each item to it occurs among the arms.
#[verifier::rlimit(30)]
proof fn lemma_arm_occurs(items: Seq<(Seq<char>, u8)>, k: int)
    requires
        0 <= k < items.len(),
    ensures
        occurs_in(
            "            "@ + dec(items[k].1 as nat) + " => Ok(Self::"@ + upper_camel_case(items[k].0)
                + "),\n"@,
            enum_arms_text(items),
        ),
    decreases items.len(),
{
    let last = items.last();
    let arm = "            "@ + dec(items[k].1 as nat) + " => Ok(Self::"@ + upper_camel_case(
        items[k].0,
    ) + "),\n"@;
    let before = enum_arms_text(items.drop_last());
    let rest = "            "@ + dec(last.1 as nat) + " => Ok(Self::"@ + upper_camel_case(last.0)
        + "),\n"@;
    assert(enum_arms_text(items) == before + rest);
    if k < items.len() - 1 {
        lemma_arm_occurs(items.drop_last(), k);
        assert(items.drop_last()[k] == items[k]);
        lemma_occurs_around(arm, before, Seq::empty(), rest);
        assert(before + rest =~= Seq::empty() + before + rest);
    } else {
        lemma_occurs_self(arm);
        lemma_occurs_around(arm, arm, before, Seq::empty());
        assert(before + rest =~= before + arm + Seq::empty());
    }
}

/// Law: every item of an enumeration is declared with its own value, and
/// the conversion from a byte maps that value, not the item's position, to
/// the item.
pub proof fn law_enumeration_maps_each_value(
    identifier: Seq<char>,
    items: Seq<(Seq<char>, u8)>,
    k: int,
)
    requires
        0 <= k < items.len(),
    ensures
        occurs_in(
            "    "@ + upper_camel_case(items[k].0) + " = "@ + dec(items[k].1 as nat) + ",\n"@,
            enum_text(identifier, items),
        ),
        occurs_in(
            "            "@ + dec(items[k].1 as nat) + " => Ok(Self::"@ + upper_camel_case(items[k].0)
                + "),\n"@,
            enum_text(identifier, items),
        ),
{
    lemma_item_occurs(items, k);
    lemma_arm_occurs(items, k);
    let head = "#[derive(PartialEq, Debug, Copy, Clone, Default)]\npub enum "@ + identifier + " {\n"@;
    let middle = "}\n\nimpl TryFrom<u8> for "@ + identifier
        + " {\n    type Error = DeviceError;\n    fn try_from(value: u8) -> Result<Self, Self::Error> {\n        match value {\n"@;
    let tail = "            _ => Err(DeviceError::EnumConversion),\n        }\n    }\n}\n"@;
    let item = "    "@ + upper_camel_case(items[k].0) + " = "@ + dec(items[k].1 as nat) + ",\n"@;
    let arm = "            "@ + dec(items[k].1 as nat) + " => Ok(Self::"@ + upper_camel_case(
        items[k].0,
    ) + "),\n"@;
    lemma_occurs_around(item, enum_items_text(items), head, middle + enum_arms_text(items) + tail);
    assert(enum_text(identifier, items) =~= head + enum_items_text(items) + (middle
        + enum_arms_text(items) + tail));
    lemma_occurs_around(arm, enum_arms_text(items), head + enum_items_text(items) + middle, tail);
    assert(enum_text(identifier, items) =~= head + enum_items_text(items) + middle
        + enum_arms_text(items) + tail);
}

/// The generated code of the enumeration `name` with the given items: the
/// enum, whose first item is its default, and its conversion from a byte.
pub fn generate_enumeration(name: &str, items: &Vec<(String, u8)>) -> (r: String)
    ensures
        r@ == enum_text(
            upper_camel_case(name@),
            items@.map_values(|e: (String, u8)| (e.0@, e.1)),
        ),
{
    let ghost v = items@.map_values(|e: (String, u8)| (e.0@, e.1));
    proof {
        reveal_strlit("#[derive(PartialEq, Debug, Copy, Clone, Default)]\npub enum ");
        reveal_strlit(" {\n");
        reveal_strlit("    #[default]\n");
        reveal_strlit("    ");
        reveal_strlit(" = ");
        reveal_strlit(",\n");
        reveal_strlit("}\n\nimpl TryFrom<u8> for ");
        reveal_strlit(
            " {\n    type Error = DeviceError;\n    fn try_from(value: u8) -> Result<Self, Self::Error> {\n        match value {\n",
        );
        reveal_strlit("            ");
        reveal_strlit(" => Ok(Self::");
        reveal_strlit("),\n");
        reveal_strlit("            _ => Err(DeviceError::EnumConversion),\n        }\n    }\n}\n");
    }
    let identifier = to_upper_camel(name);
    let mut item_lines = String::new();
    let mut arm_lines = String::new();
    let mut i: usize = 0;
    while i < items.len()
        invariant
            0 <= i <= items@.len(),
            v == items@.map_values(|e: (String, u8)| (e.0@, e.1)),
            item_lines@ == enum_items_text(v.take(i as int)),
            arm_lines@ == enum_arms_text(v.take(i as int)),
        decreases items@.len() - i,
    {
        assert(v.take(i + 1).drop_last() =~= v.take(i as int));
        assert(v.take(i + 1).last() == v[i as int]);
        let item = to_upper_camel(items[i].0.as_str());
        let value = decimal(items[i].1 as usize);
        if i == 0 {
            item_lines.append("    #[default]\n");
        }
        item_lines.append("    ");
        item_lines.append(item.as_str());
        item_lines.append(" = ");
        item_lines.append(value.as_str());
        item_lines.append(",\n");
        arm_lines.append("            ");
        arm_lines.append(value.as_str());
        arm_lines.append(" => Ok(Self::");
        arm_lines.append(item.as_str());
        arm_lines.append("),\n");
        i = i + 1;
    }
    assert(v.take(i as int) =~= v);
    let mut s = String::from_str("#[derive(PartialEq, Debug, Copy, Clone, Default)]\npub enum ");
    s.append(identifier.as_str());
    s.append(" {\n");
    s.append(item_lines.as_str());
    s.append("}\n\nimpl TryFrom<u8> for ");
    s.append(identifier.as_str());
    s.append(
        " {\n    type Error = DeviceError;\n    fn try_from(value: u8) -> Result<Self, Self::Error> {\n        match value {\n",
    );
    s.append(arm_lines.as_str());
    s.append("            _ => Err(DeviceError::EnumConversion),\n        }\n    }\n}\n");
    s
}

/// The enumerations of a definition, each named in upper camel case and
/// followed by a blank line.
pub open spec fn enums_text(enumerations: Seq<(Seq<char>, Seq<(Seq<char>, u8)>)>) -> Seq<char>
    decreases enumerations.len(),
{
    if enumerations.len() == 0 {
        Seq::empty()
    } else {
        enums_text(enumerations.drop_last()) + enum_text(
            upper_camel_case(enumerations.last().0),
            enumerations.last().1,
        ) + "\n"@
    }
}

/// An enumeration as a name and items, each item taken by its text.
pub open spec fn enumeration_view(e: (String, Vec<(String, u8)>)) -> (
    Seq<char>,
    Seq<(Seq<char>, u8)>,
) {
    (e.0@, e.1@.map_values(|x: (String, u8)| (x.0@, x.1)))
}

/// The types file of a driver: its documentation, the import of the error
/// type, and each enumeration of the definition.
pub open spec fn types_file_spec(
    enumerations: Seq<(Seq<char>, Seq<(Seq<char>, u8)>)>,
    version: Seq<char>,
) -> Seq<char> {
    doc_text("Types used in the driver"@) + "\n"@ + seq!['/', '/', '/'] + "\n"@
        + generated_doc_text(version) + "\n\nuse crate::error::DeviceError;\n\n"@ + enums_text(
        enumerations,
    )
}

/// Writes the types file of a driver with the enumerations, generated with
/// the given version of the generator.
pub fn types_file_text(enumerations: &Vec<(String, Vec<(String, u8)>)>, version: &str) -> (r:
    String)
    ensures
        r@ == types_file_spec(enumerations@.map_values(|e: (String, Vec<(String, u8)>)| enumeration_view(e)), version@),
{
    let ghost v = enumerations@.map_values(
        |e: (String, Vec<(String, u8)>)| enumeration_view(e),
    );
    let mut enums = String::new();
    let mut i: usize = 0;
    while i < enumerations.len()
        invariant
            0 <= i <= enumerations@.len(),
            v == enumerations@.map_values(
                |e: (String, Vec<(String, u8)>)| enumeration_view(e),
            ),
            enums@ == enums_text(v.take(i as int)),
        decreases enumerations@.len() - i,
    {
        assert(v.take(i + 1).drop_last() =~= v.take(i as int));
        assert(v.take(i + 1).last() == enumeration_view(enumerations@[i as int]));
        enums.append(generate_enumeration(enumerations[i].0.as_str(), &enumerations[i].1).as_str());
        enums.append("\n");
        i = i + 1;
    }
    assert(v.take(i as int) =~= v);
    let mut s = doc_of("Types used in the driver");
    s.append("\n");
    s.append(DocComment::empty().as_str());
    s.append("\n");
    s.append(generated_doc(version).as_str());
    s.append("\n\nuse crate::error::DeviceError;\n\n");
    s.append(enums.as_str());
    s
}

} // verus!
