use ddgen::bits::Bits;

#[test]
fn bit_u8() {
    let source: u8 = 0b011_0111;

    assert_eq!(true, source.bit(0));
    assert_eq!(false, source.bit(3));
    assert_eq!(true, source.bit(5));
    assert_eq!(false, source.bit(7));
}

#[test]
fn field_u8() {
    let source: u8 = 0b0011_0111;

    assert_eq!(3, source.field(0, 1));
    assert_eq!(3, source.field(4, 5));
    assert_eq!(7, source.field(0, 2));
}

#[test]
fn modified_bit_u8() {
    let mut source: u8 = 0b0011_0111;

    source.modify_bit(3, true);
    assert_eq!(source, 0b0011_1111);
    source.modify_bit(1, false);
    assert_eq!(source, 0b0011_1101);
    source.modify_bit(7, false);
    assert_eq!(source, 0b0011_1101);
}

#[test]
fn modify_field_u8() {
    let mut source: u8 = 0b0011_0111;

    source.modify_field(0b11, 6, 7);
    assert_eq!(source, 0b1111_0111);
    source.modify_field(0b010, 0, 2);
    assert_eq!(source, 0b1111_0010);
}

#[test]
fn bit_read_after_write_and_others_kept() {
    for position in 0..8usize {
        for state in [true, false] {
            let mut w: u8 = 0b1010_0101;
            w.modify_bit(position, state);
            assert_eq!(w.bit(position), state);
            for other in 0..8usize {
                if other != position {
                    assert_eq!(w.bit(other), 0b1010_0101u8.bit(other));
                }
            }
        }
    }
}

#[test]
fn field_read_after_write_keeps_low_bits_of_value() {
    let mut w: u8 = 0xFF;
    w.modify_field(0b1111_0101, 2, 4);
    assert_eq!(w.field(2, 4), 0b101);
    assert_eq!(w.field(0, 1), 0b11);
    assert_eq!(w.field(5, 7), 0b111);
}

#[test]
fn whole_byte_field() {
    let w: u8 = 0xA7;
    assert_eq!(w.field(0, 7), 0xA7);
    let mut v: u8 = 0;
    v.modify_field(0x5C, 0, 6);
    assert_eq!(v, 0x5C);
}

#[test]
fn one_bit_field_is_the_bit() {
    let w: u8 = 0b0100_1001;
    for p in 0..8usize {
        assert_eq!(w.field(p, p), w.bit(p) as u8);
    }
}
