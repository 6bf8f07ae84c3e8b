use ddgen::request::{RequestArray, RequestWord};
use ddgen::response::{ResponseArray, ResponseBit, ResponseField, ResponseWord};
use ddgen::serialize::{DeviceError, Deserialize};

#[test]
fn response_bits() {
    let source: u8 = 0b0011_0011;

    let r = source.deserialize_bit(1);
    assert_eq!(r, true);
    let r = source.deserialize_bit(6);
    assert_eq!(r, false);
    let r = source.deserialize_bit(4);
    assert_eq!(r, true);
}

#[test]
fn test_deserialize_word() {
    // 5u8, 31313u16
    let data: [u8; 3] = [0x05, 0x51, 0x7A];

    let a_u8: u8 = data[0].deserialize_word();
    assert_eq!(a_u8, 5);
    let a_u16: u16 = data[1..=2].deserialize_word();
    assert_eq!(a_u16, 31313);
}

struct UnsignedArrays {
    data_u8: [u8; 2],
    data_u16: [u16; 7],
    data_u32: [u32; 2],
}

#[test]
fn test_unsigned_arrays() {
    let expected_data_u8: [u8; 2] = [12, 13];
    let expected_data_u16: [u16; 7] = [22222, 33333, 0, 0, 0, 0, 0];
    let expected_data_u32: [u32; 2] = [4_200_000_000, 3_333_333_333];

    let source: [u8; 14] = [
        12, 13, 0xCE, 0x56, 0x35, 0x82, 0x00, 0xEA, 0x56, 0xFA, 0x55, 0xA1, 0xAE, 0xC6,
    ];

    let mut a = UnsignedArrays {
        data_u8: [0; 2],
        data_u16: [0; 7],
        data_u32: [0; 2],
    };

    a.data_u8 = source[0..2].deserialize_repeating_words(2);
    assert_eq!(a.data_u8, expected_data_u8);
    a.data_u16 = source[2..6].deserialize_repeating_words(2);
    assert_eq!(a.data_u16, expected_data_u16);

    a.data_u32 = source[6..].deserialize_repeating_words(2);
    assert_eq!(a.data_u32, expected_data_u32);
}

struct SignedArrays {
    data_i8: [i8; 2],
    data_i16: [i16; 7],
    data_i32: [i32; 2],
}

#[test]
fn test_signed_arrays() {
    let expected_data_i8: [i8; 2] = [12, -13];
    let expected_data_i16: [i16; 7] = [22222, -31313, 0, 0, 0, 0, 0];
    let expected_data_i32: [i32; 2] = [200_000_000, -333_333_333];

    let mut source: [u8; 14] = [12, 0xF3, 0, 0, 0, 0, 0, 0, 0, 0, 0, 0, 0, 0];

    source[2] = 22222i16.to_le_bytes()[0];
    source[3] = 22222i16.to_le_bytes()[1];
    source[4] = (-31313i16).to_le_bytes()[0];
    source[5] = (-31313i16).to_le_bytes()[1];

    source[6] = 200_000_000i32.to_le_bytes()[0];
    source[7] = 200_000_000i32.to_le_bytes()[1];
    source[8] = 200_000_000i32.to_le_bytes()[2];
    source[9] = 200_000_000i32.to_le_bytes()[3];
    source[10] = (-333_333_333i32).to_le_bytes()[0];
    source[11] = (-333_333_333i32).to_le_bytes()[1];
    source[12] = (-333_333_333i32).to_le_bytes()[2];
    source[13] = (-333_333_333i32).to_le_bytes()[3];

    let mut a = SignedArrays {
        data_i8: [0; 2],
        data_i16: [0; 7],
        data_i32: [0; 2],
    };

    a.data_i8 = source[0..2].deserialize_repeating_words(2);
    assert_eq!(a.data_i8, expected_data_i8);
    a.data_i16 = source[2..6].deserialize_repeating_words(2);
    assert_eq!(a.data_i16, expected_data_i16);

    a.data_i32 = source[6..].deserialize_repeating_words(2);
    assert_eq!(a.data_i32, expected_data_i32);
}

#[derive(Debug, PartialEq)]
struct TestCommonStruct {
    c_bool: bool,
    c_test_field: CommonTestField,
    c_u16: u16,
}

impl Deserialize<Self> for TestCommonStruct {
    fn deserialize(buf: &[u8]) -> Result<TestCommonStruct, DeviceError> {
        Ok(Self {
            c_bool: buf[0].deserialize_bit(1),
            c_test_field: buf[0].deserialize_field(3, 5).try_into()?,
            c_u16: buf[1..=2].deserialize_word(),
        })
    }
}

#[allow(dead_code)]
#[derive(PartialEq, Debug, Copy, Clone)]
enum CommonTestField {
    TestZero,
    TestOne,
    TestTwo,
    TestThree,
}

impl TryFrom<u8> for CommonTestField {
    type Error = DeviceError;
    fn try_from(value: u8) -> Result<Self, Self::Error> {
        match value {
            0 => Ok(Self::TestZero),
            1 => Ok(Self::TestOne),
            2 => Ok(Self::TestTwo),
            3 => Ok(Self::TestThree),
            _ => Err(DeviceError::EnumConversion),
        }
    }
}

#[test]
fn test_common_struct_deserialization() {
    let source_data = [0b0000_1010 as u8, 0x6E, 0xB2];

    let expected_struct = TestCommonStruct {
        c_bool: true,
        c_test_field: CommonTestField::TestOne,
        c_u16: 45678,
    };

    let actual_struct = TestCommonStruct::deserialize(&source_data[0..3]).unwrap();

    assert_eq!(actual_struct, expected_struct);
}

#[test]
fn common_struct_with_unknown_field_value_is_refused() {
    let source_data = [0b0010_0000 as u8, 0, 0];
    assert!(matches!(
        TestCommonStruct::deserialize(&source_data[0..3]),
        Err(DeviceError::EnumConversion)
    ));
}

#[test]
fn u32_word_reads_the_first_four_bytes() {
    let data: [u8; 5] = [0x01, 0x02, 0x03, 0x04, 0x05];
    let v: u32 = data[..].deserialize_word();
    assert_eq!(v, 0x0403_0201);
    let w: i32 = data[..].deserialize_word();
    assert_eq!(w, 0x0403_0201);
    let mut four = [0u8; 4];
    four[..].serialize_word(0xDEAD_BEEFu32);
    let back: u32 = four[..].deserialize_word();
    assert_eq!(back, 0xDEAD_BEEF);
    four[..].serialize_word(-123_456_789i32);
    let back: i32 = four[..].deserialize_word();
    assert_eq!(back, -123_456_789);
}

#[test]
fn word_written_is_read_back() {
    let mut data = [0u8; 2];
    data[..].serialize_word(0xBEEFu16);
    let v: u16 = data[..].deserialize_word();
    assert_eq!(v, 0xBEEF);

    let mut data = [0u8; 4];
    data[..].serialize_word(0x7A7A_1234u32);
    let v: u32 = data[..].deserialize_word();
    assert_eq!(v, 0x7A7A_1234);
}

#[test]
fn repeating_words_stop_at_end_of_bytes() {
    let source: [u8; 3] = [1, 2, 3];
    let d: [u8; 5] = source[..].deserialize_repeating_words(10);
    assert_eq!(d, [1, 2, 3, 0, 0]);
    let odd: [u8; 3] = [0x34, 0x12, 0x56];
    let w: [u16; 2] = odd[..].deserialize_repeating_words(1);
    assert_eq!(w, [0x1234, 0]);
}

#[test]
fn arrays_and_signed_words_read_back() {
    let source = [0x1234u16, 0xFEDC, 7];
    let mut bytes = [0u8; 6];
    bytes[..].serialize_repeating_words(source, 3);
    let back: [u16; 3] = bytes[..].deserialize_repeating_words(3);
    assert_eq!(back, source);

    let words = [0x0102_0304u32, 0xA0B0_C0D0];
    let mut bytes = [0u8; 8];
    bytes[..].serialize_repeating_words(words, 2);
    let back: [u32; 2] = bytes[..].deserialize_repeating_words(2);
    assert_eq!(back, words);

    let mut two = [0u8; 2];
    two[..].serialize_word(-12345i16);
    let v: i16 = two[..].deserialize_word();
    assert_eq!(v, -12345);

    let mut one = 0u8;
    one.serialize_word(-7i8);
    let v: i8 = one.deserialize_word();
    assert_eq!(v, -7);
}
