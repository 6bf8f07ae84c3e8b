//! The text of the items that each generated file holds: a structure with
//! its members, its `Serialize` and `Deserialize` implementations, and the
//! documentation comment that names the generator's version.

use vstd::prelude::*;
use vstd::string::*;

use crate::generator::common_structure::CommonStructures;
use crate::generator::field::{
    doc_of, doc_text, field_deserializable, field_deserialization_text, field_serializable,
    field_serialization_text, member_declarable, member_text, Field,
};
use crate::generator::members::{
    max_fixed_extent, member_keys, size_expression, sizes_defined, variable_sizes, Members,
};
use crate::generator::order::{is_ordering, stable_order};

verus! {

/// `s` with `indent` after each of its line breaks.
pub open spec fn indent_breaks(s: Seq<char>, indent: Seq<char>) -> Seq<char>
    decreases s.len(),
{
    if s.len() == 0 {
        Seq::empty()
    } else {
        let rest = indent_breaks(s.drop_last(), indent);
        if s.last() == '\n' {
            rest + seq!['\n'] + indent
        } else {
            rest.push(s.last())
        }
    }
}

/// The lines one after another, each after `indent` and before a line
/// break.
pub open spec fn block(lines: Seq<Seq<char>>, indent: Seq<char>) -> Seq<char>
    decreases lines.len(),
{
    if lines.len() == 0 {
        Seq::empty()
    } else {
        block(lines.drop_last(), indent) + indent + lines.last() + seq!['\n']
    }
}

/// The declarations of the members, by the order of their bit
/// specifications, each line of them indented.
pub open spec fn member_lines(e: Seq<(Seq<char>, Field)>) -> Seq<Seq<char>> {
    let order = stable_order(member_keys(e));
    Seq::new(
        order.len(),
        |j: int| indent_breaks(member_text(e[order[j] as int].1, e[order[j] as int].0), "    "@),
    )
}

/// The statements that write the members, by the order of their bit
/// specifications.
pub open spec fn serialization_lines(
    e: Seq<(Seq<char>, Field)>,
    cs: Seq<(Seq<char>, crate::generator::common_structure::CommonStructure)>,
) -> Seq<Seq<char>> {
    let order = stable_order(member_keys(e));
    Seq::new(
        order.len(),
        |j: int| field_serialization_text(e[order[j] as int].1, e[order[j] as int].0, e, cs),
    )
}

/// The statements that read the members into variables named after them,
/// by the order of their bit specifications.
pub open spec fn deserialization_lines(e: Seq<(Seq<char>, Field)>) -> Seq<Seq<char>> {
    let order = stable_order(member_keys(e));
    Seq::new(
        order.len(),
        |j: int|
            "let "@ + e[order[j] as int].0 + " = "@ + field_deserialization_text(
                e[order[j] as int].1,
                e[order[j] as int].0,
                e,
            ),
    )
}

/// The names of the members, each with a comma, by the order of their bit
/// specifications.
pub open spec fn name_lines(e: Seq<(Seq<char>, Field)>) -> Seq<Seq<char>> {
    let order = stable_order(member_keys(e));
    Seq::new(order.len(), |j: int| e[order[j] as int].0 + ","@)
}

/// The declaration of a structure named `name` with the members and the
/// derives.
pub open spec fn struct_decl_text(name: Seq<char>, e: Seq<(Seq<char>, Field)>, derives: Seq<char>) -> Seq<
    char,
> {
    "#[derive("@ + derives + ")]\npub struct "@ + name + " {\n"@ + block(member_lines(e), "    "@)
        + "}\n"@
}

/// The `Serialize` implementation of a structure named `name` with the
/// members: it writes each member and returns the number of bytes written.
pub open spec fn serialize_impl_text(
    name: Seq<char>,
    e: Seq<(Seq<char>, Field)>,
    cs: Seq<(Seq<char>, crate::generator::common_structure::CommonStructure)>,
) -> Seq<char> {
    "impl Serialize for "@ + name
        + " {\n    type Provider = core::iter::Empty<u8>;\n\n    fn serialize<const N: usize>(&self) -> (usize, [u8; N], Self::Provider) {\n        let mut data = [0u8; N];\n"@
        + block(serialization_lines(e, cs), "        "@) + "        ("@ + size_expression(
        max_fixed_extent(e),
        variable_sizes(e, e),
    ) + ", data, core::iter::empty())\n    }\n}\n"@
}

/// The `Deserialize` implementation of a structure named `name` with the
/// members: it reads each member and builds the structure.
pub open spec fn deserialize_impl_text(name: Seq<char>, e: Seq<(Seq<char>, Field)>) -> Seq<char> {
    "impl Deserialize<"@ + name + "> for [u8] {\n    fn deserialize(&self) -> Result<"@ + name
        + ", DeviceError> {\n"@ + block(deserialization_lines(e), "        "@) + "        Ok("@
        + name + " {\n"@ + block(name_lines(e), "            "@) + "        })\n    }\n}\n"@
}

/// The documentation comment that names the generator's version.
pub open spec fn generated_doc_text(version: Seq<char>) -> Seq<char> {
    doc_text("Generated with version "@ + version + " of ddgen"@)
}

/// Writes the documentation comment that names the generator's version.
pub fn generated_doc(version: &str) -> (r: String)
    ensures
        r@ == generated_doc_text(version@),
{
    let mut text = String::from_str("Generated with version ");
    text.append(version);
    text.append(" of ddgen");
    doc_of(text.as_str())
}

/// Writes `text` with `indent` after each of its line breaks.
pub fn indent_lines(text: &str, indent: &str) -> (r: String)
    ensures
        r@ == indent_breaks(text@, indent@),
{
    let n = text.unicode_len();
    let mut out = String::new();
    let mut i: usize = 0;
    proof {
        reveal_strlit("\n");
    }
    while i < n
        invariant
            n == text@.len(),
            i <= n,
            out@ == indent_breaks(text@.take(i as int), indent@),
        decreases n - i,
    {
        assert(text@.take(i + 1).drop_last() =~= text@.take(i as int));
        assert(text@.take(i + 1).last() == text@[i as int]);
        let c = text.get_char(i);
        proof {
            reveal_strlit("\n");
        }
        if c == '\n' {
            out.append("\n");
            out.append(indent);
        } else {
            let one = text.substring_char(i, i + 1);
            assert(one@ =~= seq![c]);
            out.append(one);
        }
        assert(out@ =~= indent_breaks(text@.take(i + 1), indent@));
        i = i + 1;
    }
    assert(text@.take(n as int) =~= text@);
    out
}

/// Appends the lines to `s`, each after `indent` and before a line break.
pub fn append_block(s: &mut String, lines: &Vec<String>, indent: &str)
    ensures
        final(s)@ == old(s)@ + block(lines@.map_values(|l: String| l@), indent@),
{
    let ghost start = s@;
    let ghost v = lines@.map_values(|l: String| l@);
    proof {
        reveal_strlit("\n");
    }
    let mut i: usize = 0;
    while i < lines.len()
        invariant
            i <= lines@.len(),
            v == lines@.map_values(|l: String| l@),
            s@ == start + block(v.take(i as int), indent@),
        decreases lines@.len() - i,
    {
        let ghost before = s@;
        proof {
            reveal_strlit("\n");
        }
        assert(v.take(i + 1).drop_last() =~= v.take(i as int));
        assert(v.take(i + 1).last() == lines@[i as int]@);
        assert(block(v.take(i + 1), indent@) == block(v.take(i as int), indent@) + indent@
            + lines@[i as int]@ + seq!['\n']);
        s.append(indent);
        s.append(lines[i].as_str());
        s.append("\n");
        assert(s@ == before + indent@ + lines@[i as int]@ + seq!['\n']);
        assert(s@ =~= start + block(v.take(i + 1), indent@));
        i = i + 1;
    }
    assert(v.take(i as int) =~= v);
}

/// Writes the declaration of a structure named `name` with the members and
/// the derives.
pub fn write_struct_decl(name: &str, members: &Members, derives: &str) -> (r: String)
    requires
        forall|k: int|
            0 <= k < members.entries().len() ==> #[trigger] member_declarable(
                members.entries()[k].1,
            ),
    ensures
        r@ == struct_decl_text(name@, members.entries(), derives@),
{
    let ghost e = members.entries();
    let declarations = members.generate_members();
    let mut lines: Vec<String> = Vec::new();
    let mut j: usize = 0;
    while j < declarations.len()
        invariant
            j <= declarations@.len(),
            e == members.entries(),
            declarations@.len() == member_lines(e).len(),
            forall|t: int|
                0 <= t < declarations@.len() ==> indent_breaks((#[trigger] declarations@[t])@, "    "@)
                    == member_lines(e)[t],
            lines@.len() == j,
            forall|t: int| 0 <= t < j ==> (#[trigger] lines@[t])@ == member_lines(e)[t],
        decreases declarations@.len() - j,
    {
        lines.push(indent_lines(declarations[j].as_str(), "    "));
        j = j + 1;
    }
    assert(lines@.map_values(|l: String| l@) =~= member_lines(e));
    let mut s = String::from_str("#[derive(");
    s.append(derives);
    s.append(")]\npub struct ");
    s.append(name);
    s.append(" {\n");
    append_block(&mut s, &lines, "    ");
    s.append("}\n");
    s
}

/// Writes the `Serialize` implementation of a structure named `name` with
/// the members.
pub fn write_serialize_impl(name: &str, members: &Members, common_structures: &CommonStructures) -> (r:
    String)
    requires
        forall|k: int|
            0 <= k < members.entries().len() ==> #[trigger] field_serializable(
                members.entries()[k].1,
                common_structures.entries(),
            ),
        sizes_defined(members.entries()),
    ensures
        r@ == serialize_impl_text(name@, members.entries(), common_structures.entries()),
{
    let ghost e = members.entries();
    let (statements, size) = members.generate_serializations(common_structures);
    assert(statements@.map_values(|l: String| l@) =~= serialization_lines(
        e,
        common_structures.entries(),
    ));
    let mut s = String::from_str("impl Serialize for ");
    s.append(name);
    s.append(
        " {\n    type Provider = core::iter::Empty<u8>;\n\n    fn serialize<const N: usize>(&self) -> (usize, [u8; N], Self::Provider) {\n        let mut data = [0u8; N];\n",
    );
    append_block(&mut s, &statements, "        ");
    s.append("        (");
    s.append(size.as_str());
    s.append(", data, core::iter::empty())\n    }\n}\n");
    s
}

/// Writes the `Deserialize` implementation of a structure named `name`
/// with the members.
pub fn write_deserialize_impl(name: &str, members: &Members) -> (r: String)
    requires
        forall|k: int|
            0 <= k < members.entries().len() ==> #[trigger] field_deserializable(
                members.entries()[k].1,
                members.entries(),
            ),
    ensures
        r@ == deserialize_impl_text(name@, members.entries()),
{
    let ghost e = members.entries();
    let statements = members.generate_deserializations();
    assert(statements@.map_values(|l: String| l@) =~= deserialization_lines(e));
    let order = members.sorted_order();
    let mut names: Vec<String> = Vec::new();
    let mut j: usize = 0;
    while j < order.len()
        invariant
            j <= order@.len(),
            e == members.entries(),
            order@ == stable_order(member_keys(e)),
            is_ordering(order@, e.len() as int),
            names@.len() == j,
            forall|t: int| 0 <= t < j ==> (#[trigger] names@[t])@ == name_lines(e)[t],
        decreases order@.len() - j,
    {
        assert(order@[j as int] < e.len());
        let (member_name, _) = members.entry(order[j]);
        let mut line = String::from_str(member_name);
        line.append(",");
        names.push(line);
        j = j + 1;
    }
    assert(names@.map_values(|l: String| l@) =~= name_lines(e));
    let mut s = String::from_str("impl Deserialize<");
    s.append(name);
    s.append("> for [u8] {\n    fn deserialize(&self) -> Result<");
    s.append(name);
    s.append(", DeviceError> {\n");
    append_block(&mut s, &statements, "        ");
    s.append("        Ok(");
    s.append(name);
    s.append(" {\n");
    append_block(&mut s, &names, "            ");
    s.append("        })\n    }\n}\n");
    s
}

} // verus!
