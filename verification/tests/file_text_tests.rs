use ddgen::generator::command::{command_file_text, Command};
use ddgen::generator::common_structure::{
    common_structure_file_text, CommonStructure, CommonStructures,
};
use ddgen::generator::definition::{lib_text, provider_file_name, provider_file_text};
use ddgen::generator::field::Field;
use ddgen::generator::flow_control::FlowControl;
use ddgen::generator::members::Members;
use ddgen::generator::source_text::{generated_doc, indent_lines, write_struct_decl};
use ddgen::generator::types::{generate_enumeration, types_file_text};
use ddgen::parser::parse;

const COMMAND_IMPORTS: &str = "use crate::deserialize::Deserialize;\nuse crate::error::DeviceError;\n\nuse crate::request::{RequestArray, RequestBit, RequestField, RequestWord, RequestStruct};\nuse crate::response::{ResponseArray, ResponseBit, ResponseField, ResponseWord};\nuse crate::serialize::Serialize;\nuse crate::types::*;";
const STRUCTURE_IMPORTS: &str = "use crate::deserialize::Deserialize;\nuse crate::error::DeviceError;\n#[allow(unused_imports)]\nuse crate::request::{RequestArray, RequestBit, RequestField, RequestWord};\n#[allow(unused_imports)]\nuse crate::response::{ResponseArray, ResponseBit, ResponseField, ResponseWord};\nuse crate::serialize::Serialize;\n\nuse crate::types::*;";

fn bit_field(bit_spec: &str, description: Option<&str>) -> Field {
    Field::BitField {
        bit_spec: parse(bit_spec).unwrap(),
        target_type: None,
        description: description.map(|d| d.to_string()),
    }
}

fn header_structures() -> CommonStructures {
    let mut header = Members::new();
    header.add("busy", bit_field("0[7]", None));
    header.add("error", bit_field("1[]", None));
    let mut cs = CommonStructures::new();
    cs.add("status_header", CommonStructure::new(header));
    cs
}

#[test]
fn line_breaks_are_indented() {
    assert_eq!(indent_lines("a\nb\n", "  "), "a\n  b\n  ");
    assert_eq!(indent_lines("plain", "    "), "plain");
}

#[test]
fn version_is_documented() {
    assert_eq!(generated_doc("1.2.3"), "/// Generated with version 1.2.3 of ddgen");
}

#[test]
fn documented_members_are_indented_line_by_line() {
    let mut members = Members::new();
    members.add("value", bit_field("0[]", Some("First\nSecond")));
    assert_eq!(
        write_struct_decl("Thing", &members, "Debug"),
        "#[derive(Debug)]\npub struct Thing {\n    /// First\n    /// Second\n    value: u8,\n}\n"
    );
}

#[test]
fn common_structure_file() {
    let cs = header_structures();
    let (name, structure) = cs.entry(0);
    let expected = format!(
        "/// Common structure used in the driver\n///\n/// Generated with version 0.1.0 of ddgen\n\n{STRUCTURE_IMPORTS}\n\n#[derive(Debug, PartialEq, Copy, Clone, Default)]\npub struct StatusHeader {{\n    busy: bool,\n    error: u8,\n}}\n\nimpl Serialize for StatusHeader {{\n    type Provider = core::iter::Empty<u8>;\n\n    fn serialize<const N: usize>(&self) -> (usize, [u8; N], Self::Provider) {{\n        let mut data = [0u8; N];\n        data[0].serialize_bit(self.busy, 7);\n        data[1].serialize_word(self.error);\n        (2, data, core::iter::empty())\n    }}\n}}\n\nimpl Deserialize<StatusHeader> for [u8] {{\n    fn deserialize(&self) -> Result<StatusHeader, DeviceError> {{\n        let busy = self[0].deserialize_bit(7);\n        let error = self[1].deserialize_word();\n        Ok(StatusHeader {{\n            busy,\n            error,\n        }})\n    }}\n}}\n"
    );
    assert_eq!(common_structure_file_text(name, structure, &cs, "0.1.0"), expected);
}

#[test]
fn direct_command_file() {
    let cs = header_structures();
    let mut response = Members::new();
    response.add("value", bit_field("0[]", None));
    let command = Command {
        opcode: 0x3,
        description: Some("Reads the status".to_string()),
        flow_control: FlowControl::Direct,
        request: Members::new(),
        response,
    };
    let expected = format!(
        "#![allow(unused_imports)]\n#![allow(clippy::unnecessary_cast)]\n/// Command GetStatus\n/// Reads the status\n/// Generated with version 0.1.0 of ddgen\n\nuse embedded_hal::spi::SpiDevice;\n\nuse crate::command::Command;\n{COMMAND_IMPORTS}\n\nuse crate::transmit::Transmit;\n\nuse crate::status_header::StatusHeader;\n\n#[derive(Debug, PartialEq)]\npub struct GetStatusRequest {{\n}}\n\nimpl Serialize for GetStatusRequest {{\n    type Provider = core::iter::Empty<u8>;\n\n    fn serialize<const N: usize>(&self) -> (usize, [u8; N], Self::Provider) {{\n        let mut data = [0u8; N];\n        (0, data, core::iter::empty())\n    }}\n}}\n\n#[derive(Debug, PartialEq)]\npub struct GetStatusResponse {{\n    value: u8,\n}}\n\nimpl Deserialize<GetStatusResponse> for [u8] {{\n    fn deserialize(&self) -> Result<GetStatusResponse, DeviceError> {{\n        let value = self[0].deserialize_word();\n        Ok(GetStatusResponse {{\n            value,\n        }})\n    }}\n}}\n\nimpl GetStatusRequest {{\n    pub fn send<SPI: SpiDevice>(&self, spi: &mut SPI) -> Result<GetStatusResponse, DeviceError> {{\n        const REQUEST_BUF_LEN: usize = 0;\n        const RESPONSE_BUF_LEN: usize = 1;\n\n        let response = self.transmit::<REQUEST_BUF_LEN, RESPONSE_BUF_LEN>(spi)?;\n        Ok(response)\n    }}\n}}\n\nimpl<SPI: SpiDevice> Transmit<SPI, GetStatusResponse> for GetStatusRequest {{}}\n\nimpl Command for GetStatusRequest {{\n    fn opcode(&self) -> u8 {{\n        0x3\n    }}\n}}\n"
    );
    assert_eq!(command_file_text("get_status", &command, &cs, "0.1.0"), expected);
}

#[test]
fn polled_send_reads_the_header_until_its_condition_holds() {
    let cs = header_structures();
    let mut response = Members::new();
    response.add("value", bit_field("2[]..3[]", None));
    let mut request = Members::new();
    request.add("count", bit_field("1[]", None));
    let command = Command {
        opcode: 0xA3,
        description: None,
        flow_control: FlowControl::Polled {
            on: "status_header".to_string(),
            condition: "busy".to_string(),
        },
        request,
        response,
    };
    assert_eq!(
        command.write_send("GetRequest", "GetResponse", &cs),
        "impl GetRequest {\n    pub fn send<SPI: SpiDevice>(&self, spi: &mut SPI) -> Result<GetResponse, DeviceError> {\n        let f = |h: StatusHeader| h.busy;\n\n        const REQUEST_BUF_LEN: usize = 2;\n        const RESPONSE_BUF_LEN: usize = 4;\n        const STATUS_HEADER_LEN: usize = 2;\n\n        let response = self.polled_transmit::<REQUEST_BUF_LEN, RESPONSE_BUF_LEN, StatusHeader, STATUS_HEADER_LEN>(spi, f)?;\n\n        Ok(response)\n    }\n}\n"
    );
}

#[test]
fn lib_file_lists_every_module() {
    let cs = header_structures();
    let commands = vec!["Get_Status".to_string()];
    let providers = vec!["data_provider".to_string()];
    assert_eq!(
        lib_text(&cs, &commands, &providers),
        "#![cfg_attr(not(test), no_std)]\n\npub use crate::types::*;\npub use crate::error::DeviceError;\n\npub mod status_header;\npub mod get_status;\npub mod error;\npub mod types;\npub mod deserialize;\npub mod serialize;\npub mod request;\npub mod response;\npub mod bits;\npub mod command;\npub mod transmit;\n/// Providers\npub mod data_provider;\n"
    );
    let no_providers: Vec<String> = Vec::new();
    assert!(!lib_text(&cs, &commands, &no_providers).contains("Providers"));
}

#[test]
fn provider_file() {
    assert_eq!(provider_file_name("DataProvider"), "data_provider.rs");
    assert_eq!(
        provider_file_text("data_provider", "0.1.0"),
        "/// Provider iterator\n/// Generated with version 0.1.0 of ddgen\n\n#[derive(Debug, PartialEq, Copy, Clone)]\npub struct DataProvider {}\n\nimpl Iterator for DataProvider {\n    type Item = u8;\n\n    /// The next byte that the provider gives.\n    fn next(&mut self) -> Option<Self::Item> {\n        None\n    }\n}\n"
    );
}

#[test]
fn types_file_lists_each_enumeration() {
    let enumerations = vec![(
        "power_mode".to_string(),
        vec![("off".to_string(), 0u8), ("on".to_string(), 1u8)],
    )];
    let expected = format!(
        "/// Types used in the driver\n///\n/// Generated with version 0.1.0 of ddgen\n\nuse crate::error::DeviceError;\n\n{}\n",
        generate_enumeration("power_mode", &enumerations[0].1)
    );
    assert_eq!(types_file_text(&enumerations, "0.1.0"), expected);
    assert!(expected.contains("pub enum PowerMode {\n    #[default]\n    Off = 0,\n    On = 1,\n}"));
    let none: Vec<(String, Vec<(String, u8)>)> = Vec::new();
    assert_eq!(
        types_file_text(&none, "0.1.0"),
        "/// Types used in the driver\n///\n/// Generated with version 0.1.0 of ddgen\n\nuse crate::error::DeviceError;\n\n"
    );
}
