use ddgen::bits::Bits;
use ddgen::request::{copy_serialized, RequestArray, RequestBit, RequestField, RequestStruct, RequestWord};
use ddgen::serialize::Serialize;

#[test]
fn test_serialize_bool() {
    let mut data = [0u8; 4];
    let b = true;
    data[2].serialize_bit(b, 5);

    assert_eq!(data, [0, 0, 0b0010_0000, 0]);
}

#[test]
fn test_serialize_word_u8() {
    let mut data = [0u8; 4];
    let w: u8 = 42;
    data[2].serialize_word(w);

    assert_eq!(data, [0, 0, 42, 0]);
}

#[test]
fn test_serialize_word_i8() {
    let mut data = [0u8; 4];
    let w: i8 = -42;
    data[2].serialize_word(w);

    let expected_u8 = w as u8;

    assert_eq!(data, [0, 0, expected_u8, 0]);
}

#[test]
fn test_serialize_word_u16() {
    let mut data = [0u8; 4];
    let w: u16 = 22222;
    data[2..].serialize_word(w);

    assert_eq!(
        data,
        [0, 0, 22222u16.to_le_bytes()[0], 22222u16.to_le_bytes()[1]]
    );
}

#[test]
fn test_serialize_word_i16() {
    let mut data = [0u8; 4];
    let w: i16 = -222;
    data[2..].serialize_word(w);

    let mut expected = [0u8; 2];

    expected[0] = (-222 as i16).to_le_bytes()[0];
    expected[1] = (-222 as i16).to_le_bytes()[1];

    assert_eq!(data, [0, 0, expected[0], expected[1]]);
}

#[test]
fn test_serialize_word_u32() {
    let mut data = [0u8; 6];
    let w: u32 = 2_123_967_295;
    data[2..].serialize_word(w);

    assert_eq!(data, [0, 0, 0x3F, 0x2B, 0x99, 0x7E]);
}

#[test]
fn test_serialize_word_i32() {
    let mut data = [0u8; 6];
    let w: i32 = -2_123_967_295;
    data[2..].serialize_word(w);

    assert_eq!(data, [0, 0, 0xC1, 0xD4, 0x66, 0x81]);
}

#[test]
fn test_u8_array() {
    let source = [123u8, 33];

    let mut serial_data = [0u8; 4];
    serial_data[0..=1].serialize_repeating_words(source, 2);

    let expected_data: [u8; 4] = [123, 33, 0, 0];

    assert_eq!(serial_data, expected_data);
}

#[test]
fn test_u16_array() {
    let source = [22222u16, 33333];
    let mut serial_data = [0u8; 7];

    serial_data[2..=5].serialize_repeating_words(source, 2);

    let expected_data: [u8; 7] = [0, 0, 0xCE, 0x56, 0x35, 0x82, 0];

    assert_eq!(serial_data, expected_data);
}

#[test]
fn test_u32_array() {
    let source = [0x12345678u32, 0xFEDCBA98];
    let mut serial_data = [0u8; 10];

    serial_data[2..=9].serialize_repeating_words(source, 2);

    let expected_data: [u8; 10] = [0, 0, 0x78, 0x56, 0x34, 0x12, 0x98, 0xBA, 0xDC, 0xFE];

    assert_eq!(serial_data, expected_data);
}

struct TestCommonStruct {
    c_bool: bool,
    c_test_field: CommonTestField,
    c_u16: u16,
}

impl Serialize for TestCommonStruct {
    type Provider = std::iter::Empty<u8>;

    fn serialize<const N: usize>(&self) -> (usize, [u8; N], Self::Provider) {
        let mut data = [0u8; N];

        data[0].serialize_bit(self.c_bool, 1);
        data[0].serialize_field(self.c_test_field as u8, 3, 5);
        data[1..=2].serialize_word(self.c_u16);

        (3, data, std::iter::empty::<u8>())
    }
}

#[allow(dead_code)]
#[derive(PartialEq, Debug, Copy, Clone)]
enum CommonTestField {
    TestZero,
    TestOne,
    TestTwo,
    TestThree,
}

#[test]
fn test_common_struct_serialization() {
    let test_common_struct = TestCommonStruct {
        c_bool: true,
        c_test_field: CommonTestField::TestOne,
        c_u16: 45678,
    };

    let mut data: [u8; 3] = [0; 3];
    data[0..].serialize_struct::<3>(test_common_struct);

    assert_eq!([0b0000_1010, 0x6E, 0xB2], data);
}

#[test]
fn copy_serialized_copies_only_on_matching_size() {
    let source: [u8; 5] = [1, 2, 3, 4, 5];
    let mut target = [0u8; 3];
    assert!(copy_serialized(&mut target, 3, &source));
    assert_eq!(target, [1, 2, 3]);

    let mut target = [7u8; 2];
    assert!(!copy_serialized(&mut target, 3, &source));
    assert_eq!(target, [7, 7]);

    let mut target = [7u8; 6];
    assert!(!copy_serialized(&mut target, 6, &source));
    assert_eq!(target, [7; 6]);
}

#[test]
fn repeating_words_write_only_the_given_number() {
    let source = [0x1111u16, 0x2222, 0x3333];
    let mut serial_data = [0xFFu8; 6];
    serial_data[..].serialize_repeating_words(source, 1);
    assert_eq!(serial_data, [0x11, 0x11, 0xFF, 0xFF, 0xFF, 0xFF]);
}

#[test]
fn serialized_field_is_read_back() {
    let mut w: u8 = 0b1000_0001;
    w.serialize_field(0b10, 3, 4);
    assert_eq!(w.field(3, 4), 0b10);
    assert_eq!(w, 0b1001_0001);
}
