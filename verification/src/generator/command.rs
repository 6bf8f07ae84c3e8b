//! A command of a device: its opcode, its request and response, and how its
//! response is read.

use vstd::prelude::*;
use vstd::string::*;

use crate::generator::case::{
    lowercase, snake_case, to_lower, to_snake, to_upper_camel, upper_camel_case,
};
use crate::generator::common_structure::{
    plain_buffer_size, plain_sized, structure_named, CommonStructure, CommonStructures,
};
use crate::generator::field::{
    doc_of, doc_text, field_deserializable, field_serializable, member_declarable, Field,
};
use crate::generator::flow_control::FlowControl;
use crate::generator::members::{buffer_size_of, buffer_sized, sizes_defined, Members};
use crate::generator::source_text::{
    deserialize_impl_text, generated_doc, generated_doc_text, serialize_impl_text,
    struct_decl_text, write_deserialize_impl, write_serialize_impl, write_struct_decl,
};
use crate::generator::target_type::TargetType;
use crate::text::{dec, decimal};

verus! {

/// A command.
#[derive(Debug)]
pub struct Command {
    pub opcode: u8,
    pub description: Option<String>,
    pub flow_control: FlowControl,
    pub request: Members,
    pub response: Members,
}

/// How a polled command reads the header of its response until its
/// condition holds.
#[derive(Debug, Clone, PartialEq)]
pub struct PollPlan {
    /// The type name of the header structure.
    pub header_name: String,
    /// The size in bytes of a buffer for the header.
    pub header_buf_len: usize,
    /// The condition on the header, as written in the definition.
    pub condition: String,
}

/// The sizes that the send function of a command uses.
#[derive(Debug, Clone, PartialEq)]
pub struct SendPlan {
    pub request_buf_len: usize,
    pub response_buf_len: usize,
    /// How the response is polled, for a polled command.
    pub poll: Option<PollPlan>,
}

/// The upper case hexadecimal digits, indexed by their value.
pub open spec fn hex_digit_chars() -> Seq<char> {
    seq!['0', '1', '2', '3', '4', '5', '6', '7', '8', '9', 'A', 'B', 'C', 'D', 'E', 'F']
}

/// The hexadecimal representation of a natural number in upper case,
/// without leading zeros.
pub open spec fn hex(n: nat) -> Seq<char>
    decreases n,
{
    if n < 16 {
        seq![hex_digit_chars()[n as int]]
    } else {
        hex(n / 16).push(hex_digit_chars()[(n % 16) as int])
    }
}

/// The provider type that a field names, if it has one.
pub open spec fn field_provider(f: Field) -> Option<Seq<char>> {
    match f {
        Field::BitField { bit_spec, target_type: Some(TargetType::TypeName(p)), .. } => {
            if bit_spec@.repeat is Variable {
                Some(p@)
            } else {
                None
            }
        },
        _ => None,
    }
}

/// The provider types that the fields name, in order.
pub open spec fn providers_of(e: Seq<(Seq<char>, Field)>) -> Seq<Seq<char>>
    decreases e.len(),
{
    if e.len() == 0 {
        Seq::empty()
    } else {
        let rest = providers_of(e.drop_last());
        match field_provider(e.last().1) {
            Some(p) => rest.push(p),
            None => rest,
        }
    }
}

/// The upper case hexadecimal digit of `d`.
fn hex_digit(d: u8) -> (r: &'static str)
    requires
        d < 16,
    ensures
        r@ == seq![hex_digit_chars()[d as int]],
{
    proof {
        reveal_strlit("0");
        reveal_strlit("1");
        reveal_strlit("2");
        reveal_strlit("3");
        reveal_strlit("4");
        reveal_strlit("5");
        reveal_strlit("6");
        reveal_strlit("7");
        reveal_strlit("8");
        reveal_strlit("9");
        reveal_strlit("A");
        reveal_strlit("B");
        reveal_strlit("C");
        reveal_strlit("D");
        reveal_strlit("E");
        reveal_strlit("F");
    }
    match d {
        0 => "0",
        1 => "1",
        2 => "2",
        3 => "3",
        4 => "4",
        5 => "5",
        6 => "6",
        7 => "7",
        8 => "8",
        9 => "9",
        10 => "A",
        11 => "B",
        12 => "C",
        13 => "D",
        14 => "E",
        _ => "F",
    }
}

/// Writes `n` in upper case hexadecimal.
fn upper_hex(n: u8) -> (r: String)
    ensures
        r@ == hex(n as nat),
{
    if n < 16 {
        String::from_str(hex_digit(n))
    } else {
        let mut s = String::from_str(hex_digit(n / 16));
        s.append(hex_digit(n % 16));
        assert(hex((n / 16) as nat) == seq![hex_digit_chars()[(n / 16) as int]]);
        s
    }
}

impl Command {
    /// The opcode as written in generated code: `0x` and its upper case
    /// hexadecimal digits.
    pub fn opcode_text(&self) -> (r: String)
        ensures
            r@ == "0x"@ + hex(self.opcode as nat),
    {
        proof {
            reveal_strlit("0x");
        }
        let s = String::from_str("0x");
        let h = upper_hex(self.opcode);
        s.concat(h.as_str())
    }

    /// The provider types that the request's fields name, in order.
    pub fn providers(&self) -> (r: Vec<String>)
        ensures
            r@.map_values(|p: String| p@) == providers_of(self.request.entries()),
    {
        let ghost e = self.request.entries();
        let mut out: Vec<String> = Vec::new();
        let mut i: usize = 0;
        while i < self.request.len()
            invariant
                0 <= i <= e.len(),
                e == self.request.entries(),
                out@.map_values(|p: String| p@) == providers_of(e.take(i as int)),
            decreases e.len() - i,
        {
            assert(e.take(i + 1).drop_last() =~= e.take(i as int));
            assert(e.take(i + 1).last() == e[i as int]);
            let (_, field) = self.request.entry(i);
            let ghost before = out@;
            match field.provider() {
                Some(p) => {
                    out.push(String::from_str(p));
                    assert(out@.map_values(|p: String| p@) =~= before.map_values(
                        |p: String| p@,
                    ).push(p@));
                },
                None => {},
            }
            i = i + 1;
        }
        assert(e.take(i as int) =~= e);
        out
    }

    /// The sizes that the send function uses: the buffer sizes of the request
    /// and the response and, for a polled command, the header structure
    /// named by the flow control, its buffer size and the condition.
    pub fn generate_send(&self, common_structures: &CommonStructures) -> (r: SendPlan)
        requires
            buffer_sized(self.request.entries(), common_structures.entries()),
            buffer_sized(self.response.entries(), common_structures.entries()),
            self.flow_control matches FlowControl::Polled { on, .. } ==> structure_named(
                common_structures.entries(),
                on@,
            ) matches Some(c) && plain_sized(c.0.entries()),
        ensures
            r.request_buf_len == buffer_size_of(
                self.request.entries(),
                common_structures.entries(),
            ),
            r.response_buf_len == buffer_size_of(
                self.response.entries(),
                common_structures.entries(),
            ),
            match self.flow_control {
                FlowControl::Direct => r.poll is None,
                FlowControl::Polled { on, condition } => r.poll matches Some(p) && p.header_name@
                    == upper_camel_case(on@) && p.header_buf_len == plain_buffer_size(
                    structure_named(common_structures.entries(), on@).unwrap().0.entries(),
                ) && p.condition@ == condition@,
            },
    {
        let request_buf_len = self.request.buffer_size(common_structures);
        let response_buf_len = self.response.buffer_size(common_structures);
        let poll = match &self.flow_control {
            FlowControl::Direct => None,
            FlowControl::Polled { on, condition } => {
                let header = common_structures.get(on.as_str()).unwrap();
                Some(
                    PollPlan {
                        header_name: to_upper_camel(on.as_str()),
                        header_buf_len: header.buffer_size(),
                        condition: String::from_str(condition.as_str()),
                    },
                )
            },
        };
        SendPlan { request_buf_len, response_buf_len, poll }
    }
}

/// The `use` lines of the common structures: each from its module, named in
/// lower case, under its type name.
pub open spec fn structure_uses(cs: Seq<(Seq<char>, CommonStructure)>) -> Seq<char>
    decreases cs.len(),
{
    if cs.len() == 0 {
        Seq::empty()
    } else {
        structure_uses(cs.drop_last()) + "use crate::"@ + lowercase(cs.last().0) + "::"@
            + upper_camel_case(cs.last().0) + ";\n"@
    }
}

/// The `use` lines of the providers: each from its module, named in snake
/// case, under its type name.
pub open spec fn provider_uses(ps: Seq<Seq<char>>) -> Seq<char>
    decreases ps.len(),
{
    if ps.len() == 0 {
        Seq::empty()
    } else {
        provider_uses(ps.drop_last()) + "use crate::"@ + snake_case(ps.last()) + "::"@
            + upper_camel_case(ps.last()) + ";\n"@
    }
}

/// The head of the send function of a request, up to its body.
pub open spec fn send_head(request: Seq<char>, response: Seq<char>) -> Seq<char> {
    "impl "@ + request
        + " {\n    pub fn send<SPI: SpiDevice>(&self, spi: &mut SPI) -> Result<"@ + response
        + ", DeviceError> {\n"@
}

/// The send function of a command's request: a direct command transmits the
/// request and reads the response with buffers of their sizes; a polled one
/// also reads the header structure, with a buffer of its size, until the
/// condition on it holds.
pub open spec fn send_text(
    c: Command,
    request: Seq<char>,
    response: Seq<char>,
    cs: Seq<(Seq<char>, CommonStructure)>,
) -> Seq<char> {
    let request_len = dec(buffer_size_of(c.request.entries(), cs) as nat);
    let response_len = dec(buffer_size_of(c.response.entries(), cs) as nat);
    match c.flow_control {
        FlowControl::Direct => send_head(request, response)
            + "        const REQUEST_BUF_LEN: usize = "@ + request_len
            + ";\n        const RESPONSE_BUF_LEN: usize = "@ + response_len
            + ";\n\n        let response = self.transmit::<REQUEST_BUF_LEN, RESPONSE_BUF_LEN>(spi)?;\n        Ok(response)\n    }\n}\n"@,
        FlowControl::Polled { on, condition } => {
            let header = upper_camel_case(on@);
            let header_len = dec(
                plain_buffer_size(structure_named(cs, on@).unwrap().0.entries()) as nat,
            );
            send_head(request, response) + "        let f = |h: "@ + header + "| h."@ + condition@
                + ";\n\n        const REQUEST_BUF_LEN: usize = "@ + request_len
                + ";\n        const RESPONSE_BUF_LEN: usize = "@ + response_len
                + ";\n        const STATUS_HEADER_LEN: usize = "@ + header_len
                + ";\n\n        let response = self.polled_transmit::<REQUEST_BUF_LEN, RESPONSE_BUF_LEN, "@
                + header
                + ", STATUS_HEADER_LEN>(spi, f)?;\n\n        Ok(response)\n    }\n}\n"@
        },
    }
}

/// Whether the file of a command can be written: the request's members can
/// be declared and written, the response's declared and read, the buffers of
/// both sized, and the header structure of a polled command is there with a
/// fixed size.
pub open spec fn command_writable(c: Command, cs: Seq<(Seq<char>, CommonStructure)>) -> bool {
    &&& forall|k: int|
        0 <= k < c.request.entries().len() ==> #[trigger] member_declarable(
            c.request.entries()[k].1,
        )
    &&& forall|k: int|
        0 <= k < c.request.entries().len() ==> #[trigger] field_serializable(
            c.request.entries()[k].1,
            cs,
        )
    &&& sizes_defined(c.request.entries())
    &&& forall|k: int|
        0 <= k < c.response.entries().len() ==> #[trigger] member_declarable(
            c.response.entries()[k].1,
        )
    &&& forall|k: int|
        0 <= k < c.response.entries().len() ==> #[trigger] field_deserializable(
            c.response.entries()[k].1,
            c.response.entries(),
        )
    &&& buffer_sized(c.request.entries(), cs)
    &&& buffer_sized(c.response.entries(), cs)
    &&& c.flow_control matches FlowControl::Polled { on, .. } ==> structure_named(cs, on@) matches Some(
        h,
    ) && plain_sized(h.0.entries())
}

/// The file of a command named `name`: its documentation, its imports, the
/// request and response structures with their `Serialize` and `Deserialize`
/// implementations, the send function, and the `Transmit` and `Command`
/// implementations with the opcode.
pub open spec fn command_file_spec(
    name: Seq<char>,
    c: Command,
    cs: Seq<(Seq<char>, CommonStructure)>,
    version: Seq<char>,
) -> Seq<char> {
    let command_name = upper_camel_case(name);
    let request = command_name + "Request"@;
    let response = command_name + "Response"@;
    let description = match c.description {
        Some(d) => d@,
        None => ""@,
    };
    "#![allow(unused_imports)]\n#![allow(clippy::unnecessary_cast)]\n"@ + doc_text(
        "Command "@ + command_name,
    ) + "\n"@ + doc_text(description) + "\n"@ + generated_doc_text(version)
        + "\n\nuse embedded_hal::spi::SpiDevice;\n\nuse crate::command::Command;\n"@
        + "use crate::deserialize::Deserialize;\nuse crate::error::DeviceError;\n\nuse crate::request::{RequestArray, RequestBit, RequestField, RequestWord, RequestStruct};\nuse crate::response::{ResponseArray, ResponseBit, ResponseField, ResponseWord};\nuse crate::serialize::Serialize;\nuse crate::types::*;"@
        + "\n\nuse crate::transmit::Transmit;\n\n"@ + structure_uses(cs) + provider_uses(
        providers_of(c.request.entries()),
    ) + "\n"@ + struct_decl_text(request, c.request.entries(), "Debug, PartialEq"@) + "\n"@
        + serialize_impl_text(request, c.request.entries(), cs) + "\n"@ + struct_decl_text(
        response,
        c.response.entries(),
        "Debug, PartialEq"@,
    ) + "\n"@ + deserialize_impl_text(response, c.response.entries()) + "\n"@ + send_text(
        c,
        request,
        response,
        cs,
    ) + "\nimpl<SPI: SpiDevice> Transmit<SPI, "@ + response + "> for "@ + request
        + " {}\n\nimpl Command for "@ + request
        + " {\n    fn opcode(&self) -> u8 {\n        "@ + ("0x"@ + hex(c.opcode as nat))
        + "\n    }\n}\n"@
}

/// Writes the `use` lines of the common structures.
fn write_structure_uses(common_structures: &CommonStructures) -> (r: String)
    ensures
        r@ == structure_uses(common_structures.entries()),
{
    let ghost e = common_structures.entries();
    let mut s = String::new();
    let mut i: usize = 0;
    while i < common_structures.len()
        invariant
            i <= e.len(),
            e == common_structures.entries(),
            s@ == structure_uses(e.take(i as int)),
        decreases e.len() - i,
    {
        assert(e.take(i + 1).drop_last() =~= e.take(i as int));
        assert(e.take(i + 1).last() == e[i as int]);
        let (name, _) = common_structures.entry(i);
        s.append("use crate::");
        s.append(to_lower(name).as_str());
        s.append("::");
        s.append(to_upper_camel(name).as_str());
        s.append(";\n");
        i = i + 1;
    }
    assert(e.take(i as int) =~= e);
    s
}

/// Writes the `use` lines of the providers.
fn write_provider_uses(providers: &Vec<String>) -> (r: String)
    ensures
        r@ == provider_uses(providers@.map_values(|p: String| p@)),
{
    let ghost ps = providers@.map_values(|p: String| p@);
    let mut s = String::new();
    let mut i: usize = 0;
    while i < providers.len()
        invariant
            i <= ps.len(),
            ps == providers@.map_values(|p: String| p@),
            s@ == provider_uses(ps.take(i as int)),
        decreases ps.len() - i,
    {
        assert(ps.take(i + 1).drop_last() =~= ps.take(i as int));
        assert(ps.take(i + 1).last() == providers@[i as int]@);
        s.append("use crate::");
        s.append(to_snake(providers[i].as_str()).as_str());
        s.append("::");
        s.append(to_upper_camel(providers[i].as_str()).as_str());
        s.append(";\n");
        i = i + 1;
    }
    assert(ps.take(i as int) =~= ps);
    s
}

impl Command {
    /// Writes the send function of the request named `request`, whose
    /// response is named `response`.
    pub fn write_send(&self, request: &str, response: &str, common_structures: &CommonStructures) -> (r:
        String)
        requires
            buffer_sized(self.request.entries(), common_structures.entries()),
            buffer_sized(self.response.entries(), common_structures.entries()),
            self.flow_control matches FlowControl::Polled { on, .. } ==> structure_named(
                common_structures.entries(),
                on@,
            ) matches Some(c) && plain_sized(c.0.entries()),
        ensures
            r@ == send_text(*self, request@, response@, common_structures.entries()),
    {
        let plan = self.generate_send(common_structures);
        let mut s = String::from_str("impl ");
        s.append(request);
        s.append(" {\n    pub fn send<SPI: SpiDevice>(&self, spi: &mut SPI) -> Result<");
        s.append(response);
        s.append(", DeviceError> {\n");
        match plan.poll {
            None => {
                s.append("        const REQUEST_BUF_LEN: usize = ");
                s.append(decimal(plan.request_buf_len).as_str());
                s.append(";\n        const RESPONSE_BUF_LEN: usize = ");
                s.append(decimal(plan.response_buf_len).as_str());
                s.append(
                    ";\n\n        let response = self.transmit::<REQUEST_BUF_LEN, RESPONSE_BUF_LEN>(spi)?;\n        Ok(response)\n    }\n}\n",
                );
            },
            Some(poll) => {
                s.append("        let f = |h: ");
                s.append(poll.header_name.as_str());
                s.append("| h.");
                s.append(poll.condition.as_str());
                s.append(";\n\n        const REQUEST_BUF_LEN: usize = ");
                s.append(decimal(plan.request_buf_len).as_str());
                s.append(";\n        const RESPONSE_BUF_LEN: usize = ");
                s.append(decimal(plan.response_buf_len).as_str());
                s.append(";\n        const STATUS_HEADER_LEN: usize = ");
                s.append(decimal(poll.header_buf_len).as_str());
                s.append(
                    ";\n\n        let response = self.polled_transmit::<REQUEST_BUF_LEN, RESPONSE_BUF_LEN, ",
                );
                s.append(poll.header_name.as_str());
                s.append(", STATUS_HEADER_LEN>(spi, f)?;\n\n        Ok(response)\n    }\n}\n");
            },
        }
        s
    }
}

/// Writes the file of the command named `name`, generated with the given
/// version of the generator.
pub fn command_file_text(
    name: &str,
    command: &Command,
    common_structures: &CommonStructures,
    version: &str,
) -> (r: String)
    requires
        command_writable(*command, common_structures.entries()),
    ensures
        r@ == command_file_spec(name@, *command, common_structures.entries(), version@),
{
    let command_name = to_upper_camel(name);
    let mut request = String::from_str(command_name.as_str());
    request.append("Request");
    let mut response = String::from_str(command_name.as_str());
    response.append("Response");
    let mut title = String::from_str("Command ");
    title.append(command_name.as_str());
    let description: &str = match &command.description {
        Some(d) => d.as_str(),
        None => "",
    };
    let mut s = String::from_str("#![allow(unused_imports)]\n#![allow(clippy::unnecessary_cast)]\n");
    s.append(doc_of(title.as_str()).as_str());
    s.append("\n");
    s.append(doc_of(description).as_str());
    s.append("\n");
    s.append(generated_doc(version).as_str());
    s.append("\n\nuse embedded_hal::spi::SpiDevice;\n\nuse crate::command::Command;\n");
    s.append(
        "use crate::deserialize::Deserialize;\nuse crate::error::DeviceError;\n\nuse crate::request::{RequestArray, RequestBit, RequestField, RequestWord, RequestStruct};\nuse crate::response::{ResponseArray, ResponseBit, ResponseField, ResponseWord};\nuse crate::serialize::Serialize;\nuse crate::types::*;",
    );
    s.append("\n\nuse crate::transmit::Transmit;\n\n");
    s.append(write_structure_uses(common_structures).as_str());
    let providers = command.providers();
    assert(providers@.map_values(|p: String| p@) == providers_of(command.request.entries()));
    s.append(write_provider_uses(&providers).as_str());
    s.append("\n");
    s.append(write_struct_decl(request.as_str(), &command.request, "Debug, PartialEq").as_str());
    s.append("\n");
    s.append(
        write_serialize_impl(request.as_str(), &command.request, common_structures).as_str(),
    );
    s.append("\n");
    s.append(write_struct_decl(response.as_str(), &command.response, "Debug, PartialEq").as_str());
    s.append("\n");
    s.append(write_deserialize_impl(response.as_str(), &command.response).as_str());
    s.append("\n");
    s.append(command.write_send(request.as_str(), response.as_str(), common_structures).as_str());
    s.append("\nimpl<SPI: SpiDevice> Transmit<SPI, ");
    s.append(response.as_str());
    s.append("> for ");
    s.append(request.as_str());
    s.append(" {}\n\nimpl Command for ");
    s.append(request.as_str());
    s.append(" {\n    fn opcode(&self) -> u8 {\n        ");
    s.append(command.opcode_text().as_str());
    s.append("\n    }\n}\n");
    s
}

} // verus!
