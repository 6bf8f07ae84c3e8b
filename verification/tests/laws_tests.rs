use ddgen::bit_spec::{BitRange, BitSpec, Repeat, Word};
use ddgen::parser::parse;

#[test]
fn bare_bit_range_is_word_zero() {
    assert_eq!(parse("5"), parse("[5]"));
    assert_eq!(parse("5"), parse("0[5]"));
    assert_eq!(parse("3..6").unwrap().start, Word { index: 0, bit_range: BitRange::Range(3, 6) });
}

#[test]
fn built_spec_prints_and_reads_back() {
    let b = BitSpec {
        start: Word { index: 3, bit_range: BitRange::Range(4, 7) },
        end: Some(Word { index: 6, bit_range: BitRange::Range(0, 5) }),
        repeat: Repeat::Fixed { number: 48 },
    };
    assert_eq!(parse(&b.to_string()).unwrap(), b);
}

#[test]
fn whatever_is_parsed_prints_back() {
    for text in ["3.6", "2[0b1_01]", "[0XaF_]", "5", "0[];4", "1[2..5]..3[];(0[])<7", "4[];<1"] {
        let b = parse(text).unwrap();
        assert_eq!(parse(&b.to_string()), Ok(b));
    }
}
