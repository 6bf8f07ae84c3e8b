use ddgen::bit_spec::{BitRange, BitSpec, Repeat, Word};
use ddgen::parser::{parse, parse_underflows_at, Error};

#[test]
fn lib_test_bit_spec_with_simple_forms() {
    let data = "4";
    let bit_spec = parse(data).unwrap();
    let expected = BitSpec {
        start: Word {
            index: 0,
            bit_range: BitRange::Single(4),
        },
        end: None,
        repeat: Repeat::NoRepeat,
    };
    assert_eq!(bit_spec, expected);

    let data = "4..6";
    let bit_spec = parse(data).unwrap();
    let expected = BitSpec {
        start: Word {
            index: 0,
            bit_range: BitRange::Range(4, 6),
        },
        end: None,
        repeat: Repeat::NoRepeat,
    };
    assert_eq!(bit_spec, expected);

    let data = "[4..6]";
    let bit_spec = parse(data).unwrap();
    let expected = BitSpec {
        start: Word {
            index: 0,
            bit_range: BitRange::Range(4, 6),
        },
        end: None,
        repeat: Repeat::NoRepeat,
    };
    assert_eq!(bit_spec, expected);

    let data = "5[3..7]";
    let bit_spec = parse(data).unwrap();
    let expected = BitSpec {
        start: Word {
            index: 5,
            bit_range: BitRange::Range(3, 7),
        },
        end: None,
        repeat: Repeat::NoRepeat,
    };
    assert_eq!(bit_spec, expected);

    let data = "5[]";
    let bit_spec = parse(data).unwrap();
    let expected = BitSpec {
        start: Word {
            index: 5,
            bit_range: BitRange::WholeWord,
        },
        end: None,
        repeat: Repeat::NoRepeat,
    };
    assert_eq!(bit_spec, expected);
}

#[test]
fn test_bit_spec_with_fixed_repeat() {
    let data = "3[4..7]..6[0..5];48";

    let bit_spec = parse(data).unwrap();

    let expected = BitSpec {
        start: Word {
            index: 3,
            bit_range: BitRange::Range(4, 7),
        },
        end: Some(Word {
            index: 6,
            bit_range: BitRange::Range(0, 5),
        }),
        repeat: Repeat::Fixed { number: 48 },
    };
    assert_eq!(bit_spec, expected);
}

#[test]
fn test_bit_spec_with_dependent_word_repeat() {
    let data = "4[]..7[];(3[])<49";
    let bit_spec = parse(data).unwrap();
    let expected_repeat = Repeat::Dependent {
        bit_spec: Box::new(BitSpec {
            start: Word {
                index: 3,
                bit_range: BitRange::WholeWord,
            },
            end: None,
            repeat: Repeat::NoRepeat,
        }),
        limit: 48,
    };
    let expected = BitSpec {
        start: Word {
            index: 4,
            bit_range: BitRange::WholeWord,
        },
        end: Some(Word {
            index: 7,
            bit_range: BitRange::WholeWord,
        }),
        repeat: expected_repeat,
    };
    assert_eq!(bit_spec, expected);
}

#[test]
fn lib_test_bit_spec() {
    let data = "3[4..7]..6[0..5]";

    let bit_spec = parse(data).unwrap();

    let expected = BitSpec {
        start: Word {
            index: 3,
            bit_range: BitRange::Range(4, 7),
        },
        end: Some(Word {
            index: 6,
            bit_range: BitRange::Range(0, 5),
        }),
        repeat: Repeat::NoRepeat,
    };
    assert_eq!(bit_spec, expected);

    let data = "4[]..7[]";
    let bit_spec = parse(data).unwrap();
    let expected = BitSpec {
        start: Word {
            index: 4,
            bit_range: BitRange::WholeWord,
        },
        end: Some(Word {
            index: 7,
            bit_range: BitRange::WholeWord,
        }),
        repeat: Repeat::NoRepeat,
    };
    assert_eq!(bit_spec, expected);

    let data = "[]..5[]";
    let bit_spec = parse(data).unwrap();
    let expected = BitSpec {
        start: Word {
            index: 0,
            bit_range: BitRange::WholeWord,
        },
        end: Some(Word {
            index: 5,
            bit_range: BitRange::WholeWord,
        }),
        repeat: Repeat::NoRepeat,
    };
    assert_eq!(bit_spec, expected);

    let data = "[]";
    let bit_spec = parse(data).unwrap();
    let expected = BitSpec {
        start: Word {
            index: 0,
            bit_range: BitRange::WholeWord,
        },
        end: None,
        repeat: Repeat::NoRepeat,
    };
    assert_eq!(bit_spec, expected);

    let data = "[]..6[0..5]";
    let bit_spec = parse(data).unwrap();
    let expected = BitSpec {
        start: Word {
            index: 0,
            bit_range: BitRange::WholeWord,
        },
        end: Some(Word {
            index: 6,
            bit_range: BitRange::Range(0, 5),
        }),
        repeat: Repeat::NoRepeat,
    };
    assert_eq!(bit_spec, expected);
}

#[test]
fn test_max_size() {
    let bit_spec = parse("4[]").unwrap();
    assert_eq!(bit_spec.max_size(), 1);

    let bit_spec = parse("4[]..7[]").unwrap();
    assert_eq!(bit_spec.max_size(), 4);

    let bit_spec = parse("4[]..5[]").unwrap();
    assert_eq!(bit_spec.max_size(), 2);

    let bit_spec = parse("4[]..5[];5").unwrap();
    assert_eq!(bit_spec.max_size(), 10);

    let bit_spec = parse("4[]..5[];(3[])<6").unwrap();
    assert_eq!(bit_spec.max_size(), 10);

    let bit_spec = parse("4[]..5[];(3[])<=6").unwrap();
    assert_eq!(bit_spec.max_size(), 12);
}

#[test]
fn lib_test_literal() {
    let bit_spec = parse("4[0xBA]").unwrap();

    assert_eq!(bit_spec.start.index, 4);
    assert_eq!(
        bit_spec.start.bit_range,
        BitRange::Literal("0xBA".to_string())
    );
}

#[test]
fn test_nonsense() {
    assert!(parse("abcd").is_err());
}

#[test]
fn test_ill_formed() {
    // This incorrect bit spec should  give an error `"3[];(2[])10"`

    assert!(parse("3[];(2[])10").is_err());
}

#[test]
fn parse_errors_tell_unread_from_left_over() {
    assert_eq!(parse("abcd"), Err(Error::ParseError));
    assert_eq!(parse(""), Err(Error::ParseError));
    assert_eq!(parse("3[];(2[])10"), Err(Error::IllFormed));
    assert_eq!(parse("3[] "), Err(Error::IllFormed));
}

#[test]
fn parse_error_message() {
    assert_eq!(Error::ParseError.to_string(), "Error in bit specification");
    assert_eq!(Error::IllFormed.to_string(), "Error in bit specification");
}

#[test]
fn zero_limit_is_reported_before_parsing() {
    assert!(parse_underflows_at("3[];<0"));
    assert!(parse_underflows_at("3[];(2[])<0"));
    assert!(!parse_underflows_at("3[];<1"));
    assert!(!parse_underflows_at("3[];(2[])<=0"));
    assert_eq!(
        parse("3[];<1").unwrap().repeat,
        Repeat::Variable { limit: 0 }
    );
}

#[test]
fn lt_limit_is_one_below_lte_limit() {
    assert_eq!(parse("4[];(2[])<49"), parse("4[];(2[])<=48"));
    assert_eq!(parse("4[];<10"), parse("4[];<=9"));
}

#[test]
fn printed_specification_reads_back() {
    for text in [
        "6[4]",
        "6[4]..8[1..6]",
        "6[]..8[1..6];10",
        "6[]..8[];(3[])<=10",
        "2[0x1F]",
        "0[0b1010]",
        "0[3..5]",
        "5[];<=7",
    ] {
        let b = parse(text).unwrap();
        assert_eq!(b.to_string(), text);
        assert_eq!(parse(&b.to_string()).unwrap(), b);
    }
}

#[test]
fn word_index_defaults_to_zero() {
    assert_eq!(parse("[3]"), parse("0[3]"));
    assert_eq!(parse("5"), parse("0[5]"));
    assert_eq!(parse("3..6"), parse("0[3..6]"));
}

#[test]
fn short_range_is_a_range_in_word_zero() {
    let expected = Ok(BitSpec {
        start: Word { index: 0, bit_range: BitRange::Range(3, 6) },
        end: None,
        repeat: Repeat::NoRepeat,
    });
    assert_eq!(parse("3.6"), expected);
    assert_eq!(parse("3.6"), parse("[3..6]"));
    assert_eq!(parse("3..6"), parse("[3..6]"));
    assert_eq!(parse("[3..6]"), parse("0[3..6]"));
    assert_eq!(parse("0[3..6]"), expected);
}

#[test]
fn short_range_starts_a_word_range() {
    let b = parse("3.6..2[]").unwrap();
    assert_eq!(b.start, Word { index: 0, bit_range: BitRange::Range(3, 6) });
    assert_eq!(b.end, Some(Word { index: 2, bit_range: BitRange::WholeWord }));
    assert_eq!(parse("3.x"), Err(Error::IllFormed));
}
