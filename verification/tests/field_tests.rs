use ddgen::generator::command::{Command, SendPlan};
use ddgen::generator::common_structure::{CommonStructure, CommonStructures};
use ddgen::generator::definition::{Device, Endian};
use ddgen::generator::field::{Field, WordRange, word_range};
use ddgen::generator::flow_control::FlowControl;
use ddgen::generator::members::Members;
use ddgen::generator::naming::{CommandName, CommonStructureName, RequestStructName, ResponseStructName};
use ddgen::generator::target_type::TargetType;
use ddgen::generator::types::generate_enumeration;
use ddgen::parser::parse;

fn new_bitfield(bit_spec: &str, target_type: Option<&str>) -> Result<Field, String> {
    let bit_spec = parse(bit_spec).map_err(|e| e.to_string())?;

    let target_type: Option<TargetType> = match target_type {
        Some(tt) => Some(TargetType::from(tt.to_string())),
        None => None,
    };

    Ok(Field::BitField {
        bit_spec,
        target_type,
        description: None,
    })
}

#[test]
fn test_order() {
    let lower = Field::BitField {
        bit_spec: parse("1[]").unwrap(),
        target_type: None,
        description: None,
    };

    let upper = Field::BitField {
        bit_spec: parse("2[]").unwrap(),
        target_type: None,
        description: None,
    };

    assert!(upper > lower);

    let lower = Field::BitField {
        bit_spec: parse("1[]").unwrap(),
        target_type: Some(TargetType::I16),
        description: None,
    };

    let upper = Field::BitField {
        bit_spec: parse("2[]").unwrap(),
        target_type: Some(TargetType::U16),
        description: None,
    };

    assert!(upper > lower);

    let lower = Field::BitField {
        bit_spec: parse("1[]").unwrap(),
        target_type: Some(TargetType::U16),
        description: None,
    };

    let upper = Field::BitField {
        bit_spec: parse("1[]").unwrap(),
        target_type: Some(TargetType::I16),
        description: None,
    };

    assert!(upper == lower);

    let lower = Field::BitField {
        bit_spec: parse("1[]").unwrap(),
        target_type: Some(TargetType::U16),
        description: Some("ZZZZ".to_string()),
    };

    let upper = Field::BitField {
        bit_spec: parse("1[]").unwrap(),
        target_type: Some(TargetType::I16),
        description: Some("AAAA".to_string()),
    };

    assert!(upper == lower);
}

#[test]
fn field_order_follows_derived_bit_spec_order() {
    let specs = [
        "0[]", "1[3]", "1[2..4]", "1[]", "1[0x1F]", "1[]..2[]", "1[];3", "1[];(0[])<=4",
        "1[];<=4", "2[7]", "1[0b01]",
    ];
    for a in specs.iter() {
        for b in specs.iter() {
            let fa = new_bitfield(a, None).unwrap();
            let fb = new_bitfield(b, None).unwrap();
            let ba = parse(a).unwrap();
            let bb = parse(b).unwrap();
            assert_eq!(fa.partial_cmp(&fb), Some(ba.cmp(&bb)), "{} vs {}", a, b);
            assert_eq!(fa == fb, ba == bb);
        }
    }
}

#[test]
fn test_generate_struct_member_bool() {
    let field = new_bitfield("4", None).unwrap();
    assert_eq!(field.generate_struct_member("a_bool"), "a_bool: bool,");
}

#[test]
fn test_generate_struct_member_field() {
    let field = new_bitfield("5[1..4]", Some("AnEnum")).unwrap();
    assert_eq!(field.generate_struct_member("a_bool"), "a_bool: AnEnum,");
}

#[test]
fn test_generate_struct_member_u8() {
    let field = new_bitfield("3[]", None).unwrap();
    assert_eq!(field.generate_struct_member("a_u8"), "a_u8: u8,");
}

#[test]
fn test_generate_struct_member_u16() {
    let field = new_bitfield("3[]..4[]", None).unwrap();
    assert_eq!(field.generate_struct_member("a_u16"), "a_u16: u16,");
}

#[test]
fn test_generate_struct_member_u32() {
    let field = new_bitfield("3[]..6[]", None).unwrap();
    assert_eq!(field.generate_struct_member("a_u32"), "a_u32: u32,");
}

#[test]
fn test_generate_struct_member_fixed_repeat_u8() {
    let field = new_bitfield("5[];10", None).unwrap();
    assert_eq!(field.generate_struct_member("a_repeat"), "a_repeat: [u8; 10],");
}

#[test]
fn test_generate_struct_member_fixed_repeat_u16() {
    let field = new_bitfield("5[]..6[];12", None).unwrap();
    assert_eq!(field.generate_struct_member("a_repeat"), "a_repeat: [u16; 12],");
}

#[test]
fn test_generate_struct_member_dependent_repeat_u16() {
    let field = new_bitfield("5[]..6[];(1[])<12", None).unwrap();
    assert_eq!(
        field.generate_struct_member("a_dependent_repeat"),
        "a_dependent_repeat: [u16; 11],"
    );
}

#[test]
fn test_generate_struct_member_variable_repeat() {
    let field = new_bitfield("5[]..6[];<=1024", Some("ProviderStruct")).unwrap();
    assert_eq!(
        field.generate_struct_member("a_variable_repeat"),
        "a_variable_repeat: ProviderStruct,"
    );
}

#[test]
fn struct_member_with_description_and_structure() {
    let field = Field::BitField {
        bit_spec: parse("2[]").unwrap(),
        target_type: None,
        description: Some("The count.\nOf items.".to_string()),
    };
    assert_eq!(
        field.generate_struct_member("count"),
        "/// The count.\n/// Of items.\ncount: u8,"
    );
    let header = Field::Structure {
        common_structure_name: "status_header".to_string(),
        description: None,
        bit_spec: parse("0[]..1[]").unwrap(),
    };
    assert_eq!(header.generate_struct_member("status"), "status: StatusHeader,");
}

#[test]
fn test_generate_word_field_serialization_bit() {
    let field = new_bitfield("5[7]", None).unwrap();
    let fields = Members::new();
    let s = field.generate_word_field_serialization("a_bit", &fields);
    assert_eq!(s, "data[5].serialize_bit(self.a_bit, 7)");
}

#[test]
fn test_generate_word_field_serialization_field() {
    let field = new_bitfield("5[1..4]", Some("AnEnum")).unwrap();
    let fields = Members::new();
    let s = field.generate_word_field_serialization("a_field", &fields);
    assert_eq!(s, "data[5].serialize_field(self.a_field as u8, 1, 4)");
}

#[test]
fn test_generate_word_u8_serialization() {
    let field = new_bitfield("5[]", None).unwrap();
    let fields = Members::new();
    let s = field.generate_word_field_serialization("a_u8", &fields);
    assert_eq!(s, "data[5].serialize_word(self.a_u8)");
}

#[test]
fn test_generate_word_u16_serialization() {
    let field = new_bitfield("5[]..6[]", None).unwrap();
    let fields = Members::new();
    let s = field.generate_word_field_serialization("a_u16", &fields);
    assert_eq!(s, "data[5..=6].serialize_word(self.a_u16)");
}

#[test]
fn test_generate_word_fixed_repeat_u8() {
    let field = new_bitfield("5[];10", None).unwrap();
    let fields = Members::new();
    let s = field.generate_word_field_serialization("a_repeat_u8", &fields);
    assert_eq!(
        s,
        "data[5..=14].serialize_repeating_words(self.a_repeat_u8, 10)"
    );
}

#[test]
fn test_generate_word_fixed_repeat_u32() {
    let field = new_bitfield("5[]..8[];10", None).unwrap();
    let fields = Members::new();
    let s = field.generate_word_field_serialization("a_repeat_u32", &fields);
    assert_eq!(
        s,
        "data[5..=44].serialize_repeating_words(self.a_repeat_u32, 10)"
    );
}

#[test]
fn test_generate_word_dependent_repeat_u8() {
    let field = new_bitfield("3[];(2[])<=10", None).unwrap();

    let mut fields = Members::new();
    let dependent_field = new_bitfield("2[]", None).unwrap();
    fields.add("count", dependent_field);
    let s = field.generate_word_field_serialization("a_repeat_u32", &fields);

    assert_eq!(
        s,
        "data[3..].serialize_repeating_words(self.a_repeat_u32, self.count as usize)"
    );
}

#[test]
fn test_generate_word_variable_repeat_u8() {
    let field = new_bitfield("3[];<=10", None).unwrap();
    let fields = Members::new();
    let s = field.generate_word_field_serialization("a_repeat_u32", &fields);
    assert_eq!(s, "let provider = self.a_repeat_u32");
}

#[test]
fn word_serialization_of_other_forms() {
    let fields = Members::new();
    let missing = new_bitfield("3[];(2[])<=10", None).unwrap();
    assert_eq!(
        missing.generate_word_field_serialization("items", &fields),
        "Cannot find bit spec 3[];(2[])<=10"
    );
    let literal = new_bitfield("4[0xAB]", None).unwrap();
    assert_eq!(
        literal.generate_word_field_serialization("magic", &fields),
        "data[4] = 0xAB"
    );
    let mixed = new_bitfield("3[]..4[0..3]", None).unwrap();
    assert_eq!(
        mixed.generate_word_field_serialization("mixed", &fields),
        "todo!(\"mixed\")"
    );
}

#[test]
fn word_deserialization_forms() {
    let mut members = Members::new();
    members.add("count", new_bitfield("2[]", None).unwrap());
    let f = new_bitfield("1[]", None).unwrap();
    let cases = [
        ("5[7]", "self[5].deserialize_bit(7)"),
        ("5[1..4]", "self[5].deserialize_field(1, 4).try_into()?"),
        ("5[]", "self[5].deserialize_word()"),
        ("5[]..6[]", "self[5..=6].deserialize_word()"),
        ("5[];10", "self[5..].deserialize_repeating_words(10)"),
        ("3[];(2[])<=10", "self[3..].deserialize_repeating_words(count as usize)"),
        ("4[0b0101]", "0b0101"),
        ("3[];<=10", "todo!(\"x\")"),
    ];
    for (spec, expected) in cases {
        let b = parse(spec).unwrap();
        assert_eq!(f.generate_word_field_deserialization("x", &b, &members), expected);
    }
}

#[test]
fn test_provider() {
    let field = new_bitfield("3[];<=10", Some("a_provider")).unwrap();
    let provider = field.provider();
    assert_eq!(provider, Some("a_provider"));

    let field = new_bitfield("3[3..5]", Some("an_enum")).unwrap();
    let provider = field.provider();
    assert_eq!(provider, None);

    assert!(new_bitfield("3];5", None).is_err());
    assert!(new_bitfield("3];<5", None).is_err());
    let field = new_bitfield("3[];5", None).unwrap();
    assert_eq!(field.provider(), None);
    let field = new_bitfield("3[];<5", None).unwrap();
    assert_eq!(field.provider(), None);
}

#[test]
fn target_types_from_names() {
    assert_eq!(TargetType::from("u8".to_string()), TargetType::U8);
    assert_eq!(TargetType::from("i128".to_string()), TargetType::I128);
    assert_eq!(
        TargetType::from("my_enum".to_string()),
        TargetType::TypeName("my_enum".to_string())
    );
    assert_eq!(TargetType::from("my_enum".to_string()).to_string(), "MyEnum");
    assert_eq!(TargetType::U32.to_string(), "u32");
    assert_eq!(TargetType::default(), TargetType::U8);
}

#[test]
fn word_ranges() {
    assert_eq!(word_range(&parse("5[];10").unwrap()), WordRange::Fixed(5, 14));
    assert_eq!(word_range(&parse("5[]..8[];10").unwrap()), WordRange::Fixed(5, 44));
    assert_eq!(word_range(&parse("5[]..8[]").unwrap()), WordRange::Fixed(5, 8));
    assert_eq!(word_range(&parse("5[];<=3").unwrap()), WordRange::Variable(5));
}

#[test]
fn test_find_field_by_bitspec() {
    let bit_spec0 = parse("1[]").unwrap();
    let bit_spec1 = parse("2[]..3[]").unwrap();
    let bit_spec2 = parse("4[]..5[];6").unwrap();

    let field0 = Field::BitField {
        bit_spec: bit_spec0,
        target_type: None,
        description: None,
    };
    let field1 = Field::BitField {
        bit_spec: parse("2[]..3[]").unwrap(),
        target_type: None,
        description: None,
    };
    let field2 = Field::BitField {
        bit_spec: bit_spec2,
        target_type: None,
        description: None,
    };

    let mut members = Members::new();
    members.add("a_u8", field0);
    members.add("a_u16", field1);
    members.add("a_repeating_u16", field2);

    let expected_bit_spec = parse("2[]..3[]").unwrap();
    let expected_field = Field::BitField {
        bit_spec: expected_bit_spec,
        target_type: None,
        description: None,
    };
    assert_eq!(
        members.find_field_by_bitspec(&bit_spec1),
        Some(("a_u16", &expected_field))
    );
    assert_eq!(members.find_field_by_bitspec(&parse("9[]").unwrap()), None);
}

#[test]
fn adding_a_name_again_replaces_its_field() {
    let mut members = Members::new();
    members.add("a", new_bitfield("1[]", None).unwrap());
    members.add("b", new_bitfield("2[]", None).unwrap());
    members.add("a", new_bitfield("3[]", None).unwrap());
    assert_eq!(members.len(), 2);
    let (name, field) = members.entry(0);
    assert_eq!(name, "a");
    assert_eq!(field, &new_bitfield("3[]", None).unwrap());
}

#[test]
fn test_buffer_size_simple() {
    let mut members = Members::new();
    members.add("a", new_bitfield("0[]", None).unwrap());
    members.add("b", new_bitfield("1[]", None).unwrap());
    members.add("c", new_bitfield("2[]", None).unwrap());

    let common_structure = CommonStructure::new(members);
    assert_eq!(3, common_structure.buffer_size());
}

#[test]
fn test_buffer_size_discontinuous() {
    let mut members = Members::new();
    members.add("a", new_bitfield("1[]", None).unwrap());
    members.add("c", new_bitfield("3[]", None).unwrap());

    let common_structure = CommonStructure::new(members);
    assert_eq!(4, common_structure.buffer_size());
}

fn request_members() -> Members {
    let mut members = Members::new();
    members.add("a_repeating_u16", new_bitfield("5[]..6[];(4[])<=6", None).unwrap());
    members.add("a_count", new_bitfield("4[]", None).unwrap());
    members.add("a_u8", new_bitfield("3[]", None).unwrap());
    members.add("a_u16", new_bitfield("1[]..2[]", None).unwrap());
    members.add("a_field", new_bitfield("[5..6]", Some("TestField")).unwrap());
    members.add("a_bit", new_bitfield("4", None).unwrap());
    members
}

#[test]
fn members_in_bit_spec_order() {
    let members = request_members();
    assert_eq!(
        members.generate_members(),
        vec![
            "a_bit: bool,",
            "a_field: TestField,",
            "a_u16: u16,",
            "a_u8: u8,",
            "a_count: u8,",
            "a_repeating_u16: [u16; 6],",
        ]
    );
    assert_eq!(members.sorted_order(), vec![5, 4, 3, 2, 1, 0]);
}

#[test]
fn serializations_and_size_expression() {
    let members = request_members();
    let cs = CommonStructures::new();
    let (statements, size) = members.generate_serializations(&cs);
    assert_eq!(
        statements,
        vec![
            "data[0].serialize_bit(self.a_bit, 4);",
            "data[0].serialize_field(self.a_field as u8, 5, 6);",
            "data[1..=2].serialize_word(self.a_u16);",
            "data[3].serialize_word(self.a_u8);",
            "data[4].serialize_word(self.a_count);",
            "data[5..].serialize_repeating_words(self.a_repeating_u16, self.a_count as usize);",
        ]
    );
    assert_eq!(size, "5 + (2 * self.a_count as usize)");
    let (fixed, variable) = members.size();
    assert_eq!(fixed, 5);
    assert_eq!(variable, vec![(2, "a_count".to_string())]);
}

#[test]
fn deserializations_in_order() {
    let members = request_members();
    assert_eq!(
        members.generate_deserializations(),
        vec![
            "let a_bit = self[0].deserialize_bit(4);",
            "let a_field = self[0].deserialize_field(5, 6).try_into()?;",
            "let a_u16 = self[1..=2].deserialize_word();",
            "let a_u8 = self[3].deserialize_word();",
            "let a_count = self[4].deserialize_word();",
            "let a_repeating_u16 = self[5..].deserialize_repeating_words(a_count as usize);",
        ]
    );
}

fn header_structures() -> CommonStructures {
    let mut header = Members::new();
    header.add("busy", new_bitfield("0[7]", None).unwrap());
    header.add("error", new_bitfield("1[]", None).unwrap());
    let mut cs = CommonStructures::new();
    cs.add("status_header", CommonStructure::new(header));
    cs
}

#[test]
fn common_structure_fields() {
    let cs = header_structures();
    let status = Field::Structure {
        common_structure_name: "status_header".to_string(),
        description: None,
        bit_spec: parse("0[]..1[]").unwrap(),
    };
    let mut members = Members::new();
    members.add("status", status);
    members.add("value", new_bitfield("2[]", None).unwrap());
    let (statements, _) = members.generate_serializations(&cs);
    assert_eq!(
        statements,
        vec![
            "data[0..=1].serialize_struct::<2>(self.status);",
            "data[2].serialize_word(self.value);",
        ]
    );
    assert_eq!(
        members.generate_deserializations()[0],
        "let status = self[0..1].deserialize().unwrap();"
    );
    assert_eq!(members.buffer_size(&cs), 3);
    assert_eq!(cs.get("status_header").unwrap().size(), 2);
    assert!(cs.get("other").is_none());
}

#[test]
fn send_plans() {
    let cs = header_structures();
    let mut response = Members::new();
    response.add("value", new_bitfield("2[]..3[]", None).unwrap());
    let mut request = Members::new();
    request.add("data", new_bitfield("1[];<=8", Some("data_provider")).unwrap());
    let command = Command {
        opcode: 0xA3,
        description: None,
        flow_control: FlowControl::Polled {
            on: "status_header".to_string(),
            condition: "busy".to_string(),
        },
        request,
        response,
    };
    let plan: SendPlan = command.generate_send(&cs);
    assert_eq!(plan.request_buf_len, 9);
    assert_eq!(plan.response_buf_len, 4);
    let poll = plan.poll.unwrap();
    assert_eq!(poll.header_name, "StatusHeader");
    assert_eq!(poll.header_buf_len, 2);
    assert_eq!(poll.condition, "busy");
    assert_eq!(command.opcode_text(), "0xA3");
    assert_eq!(command.providers(), vec!["data_provider".to_string()]);

    let direct = Command {
        opcode: 9,
        description: None,
        flow_control: FlowControl::default(),
        request: Members::new(),
        response: Members::new(),
    };
    let plan = direct.generate_send(&cs);
    assert_eq!(plan.poll, None);
    assert_eq!(plan.request_buf_len, 0);
    assert_eq!(direct.opcode_text(), "0x9");
}

#[test]
fn device_limitations() {
    let ok = Device { name: "d".to_string(), word_size: 8, endian: Endian::Little };
    assert_eq!(ok.check_limitations(), Ok(()));
    let both = Device { name: "d".to_string(), word_size: 16, endian: Endian::Big };
    assert_eq!(
        both.check_limitations(),
        Err("Error: Unsupported features specified: word_size should be 8, only little endian format is supported".to_string())
    );
    let big = Device { name: "d".to_string(), word_size: 8, endian: Endian::Big };
    assert_eq!(
        big.check_limitations(),
        Err("Error: Unsupported features specified: only little endian format is supported".to_string())
    );
}

#[test]
fn test_command_name_string() {
    let command_name = CommonStructureName::from("get_sys_state".to_string().as_str());
    let s: String = command_name.to_string();
    assert_eq!(s, "GetSysState".to_string());
}

#[test]
fn test_command_name_str() {
    let command_name = CommonStructureName::from("get_sys_state");
    let s = command_name.to_string();
    assert_eq!(s, "GetSysState");
}

#[test]
fn test_file_name() {
    let command_name = CommonStructureName::from("get_sys_state");
    assert_eq!("get_sys_state.rs", command_name.to_file_name());
}

#[test]
fn test_request_name_creation() {
    let command_name = CommandName::from("get_sys_state");
    let request_name = RequestStructName::from(&command_name);
    let s: String = request_name.to_string();
    assert_eq!(s, "GetSysStateRequest".to_string());
}

#[test]
fn test_response_struct_name_creation() {
    let command_name = CommandName::from("get_sys_state");
    let response_struct_name = ResponseStructName::from(&command_name);
    let s: String = response_struct_name.to_string();
    assert_eq!(s, "GetSysStateResponse".to_string());
}

#[test]
fn command_file_name() {
    assert_eq!(CommandName::from("dab_set_freq_list").to_file_name(), "dab_set_freq_list.rs");
    assert_eq!(CommandName::from("GetSysState").to_string(), "GetSysState");
}

#[test]
fn checkers_tell_what_can_be_generated() {
    let members = request_members();
    let cs = CommonStructures::new();
    assert!(members.all_declarable());
    assert!(members.all_serializable(&cs));
    assert!(members.all_deserializable());
    assert!(members.buffer_is_sized(&cs));
    assert_eq!(members.buffer_size(&cs), 17);

    let mut missing_counter = Members::new();
    missing_counter.add("items", new_bitfield("3[];(2[])<=10", None).unwrap());
    assert!(!missing_counter.all_deserializable());
    assert!(!missing_counter.all_serializable(&cs));

    let mut no_provider = Members::new();
    no_provider.add("items", new_bitfield("3[];<=10", None).unwrap());
    assert!(!no_provider.all_declarable());

    let mut reversed = Members::new();
    reversed.add("w", new_bitfield("4[]..2[]", None).unwrap());
    assert!(!reversed.all_declarable());
    assert!(!reversed.buffer_is_sized(&cs));

    let mut header = Members::new();
    header.add(
        "status",
        Field::Structure {
            common_structure_name: "nowhere".to_string(),
            description: None,
            bit_spec: parse("0[]").unwrap(),
        },
    );
    assert!(!header.buffer_is_sized(&cs));
    assert!(!header.all_serializable(&cs));
}

#[test]
fn buffer_holds_every_field() {
    let members = request_members();
    let cs = CommonStructures::new();
    let size = members.buffer_size(&cs);
    for k in 0..members.len() {
        let (_, field) = members.entry(k);
        let b = field.bit_spec();
        assert!(b.start.index + b.max_size() <= size);
    }
}

#[test]
fn enumeration_code() {
    let items = vec![("low".to_string(), 0u8), ("high_level".to_string(), 1u8)];
    assert_eq!(
        generate_enumeration("logic_level", &items),
        "#[derive(PartialEq, Debug, Copy, Clone, Default)]\npub enum LogicLevel {\n    #[default]\n    Low = 0,\n    HighLevel = 1,\n}\n\nimpl TryFrom<u8> for LogicLevel {\n    type Error = DeviceError;\n    fn try_from(value: u8) -> Result<Self, Self::Error> {\n        match value {\n            0 => Ok(Self::Low),\n            1 => Ok(Self::HighLevel),\n            _ => Err(DeviceError::EnumConversion),\n        }\n    }\n}\n"
    );
}

#[test]
fn members_listed_in_the_order_added() {
    let members = request_members();
    let names: Vec<&str> = members.iter().map(|(n, _)| n.as_str()).collect();
    assert_eq!(
        names,
        vec!["a_repeating_u16", "a_count", "a_u8", "a_u16", "a_field", "a_bit"]
    );
    let listed: Vec<String> = members.to_vec().iter().map(|(n, _)| n.to_string()).collect();
    assert_eq!(listed.len(), 6);
    assert_eq!(members.fields().len(), 6);
    assert_eq!(members.fields()[2], &new_bitfield("3[]", None).unwrap());
}

#[test]
fn crate_root_exports() {
    let b: ddgen::BitSpec = ddgen::parse("2[]").unwrap();
    assert_eq!(b.start.bit_range, ddgen::BitRange::WholeWord);
    assert_eq!(ddgen::parse("x"), Err(ddgen::Error::ParseError));
}

#[test]
fn test_command_name_token() {
    let command_name = CommonStructureName::from("get_sys_state");
    assert_eq!("GetSysState\n", format!("{}\n", command_name.to_string()));
}

#[test]
fn test_request_name_token() {
    let command_name = CommandName::from("get_sys_state");
    let request_struct_name = RequestStructName::from(&command_name);
    assert_eq!("GetSysStateRequest\n", format!("{}\n", request_struct_name.to_string()));
}

#[test]
fn test_response_name_token() {
    let command_name = CommandName::from("get_sys_state");
    let response_struct_name = ResponseStructName::from(&command_name);
    assert_eq!("GetSysStateResponse\n", format!("{}\n", response_struct_name.to_string()));
}
