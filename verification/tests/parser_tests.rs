use ddgen::bit_spec::{BitRange, BitSpec, Condition, Repeat, Word};
use ddgen::parser::{
    binary, binary_literal, bit_range, bit_spec, boolean_char, condition, dependent_repeat,
    fixed_repeat, fully_qualified_word, hexadecimal_literal, index, literal, literal_word, range,
    repeat, separater, single_bit, variable_repeat, word,
};

#[test]
fn test_seperator() {
    let data = "_";
    let (_, c) = separater(data).unwrap();
    assert_eq!(c, '_');

    assert!(separater("1").is_err());
}

#[test]
fn test_boolean_char() {
    let data = "1";
    let (_, c) = boolean_char(data).unwrap();
    assert_eq!(c, '1');

    let data = "0";
    let (_, c) = boolean_char(data).unwrap();
    assert_eq!(c, '0');

    let data = "_";
    assert!(boolean_char(data).is_err());
}

#[test]
fn test_binary() {
    let data = "1";
    let (_, c) = binary(data).unwrap();
    assert_eq!(c, "1");

    let data = "1011001";
    let (_, c) = binary(data).unwrap();
    assert_eq!(c, "1011001");

    let data = "1011_001";
    let (_, c) = binary(data).unwrap();
    assert_eq!(c, "1011_001");
}

#[test]
fn test_literal_word() {
    let data = "[0x1234]";
    let (_, r) = literal_word(data).unwrap();
    let expected = Word {
        index: 0,
        bit_range: BitRange::Literal("0x1234".to_string()),
    };
    assert_eq!(r, expected);

    let data = "4[0b0011_1100]";
    let (_, r) = literal_word(data).unwrap();
    let expected = Word {
        index: 4,
        bit_range: BitRange::Literal("0b0011_1100".to_string()),
    };
    assert_eq!(r, expected);

    let data = "5[0b0011ABCD]";
    assert!(literal_word(data).is_err());
}

#[test]
fn test_bit_range_to_string() {
    assert_eq!(BitRange::Single(5).to_string(), "5");
    assert_eq!(BitRange::Single(5).to_string(), "5");
    assert_eq!(BitRange::WholeWord.to_string(), "");
    assert_eq!(BitRange::Literal("0x2E".to_string()).to_string(), "0x2E");
    assert_eq!(
        BitRange::Literal("0b1100".to_string()).to_string(),
        "0b1100"
    );
}

#[test]
fn test_word_to_string() {
    assert_eq!(
        Word {
            bit_range: BitRange::Range(3, 6),
            index: 4
        }
        .to_string(),
        "4[3..6]".to_string()
    );
    assert_eq!(
        Word {
            bit_range: BitRange::WholeWord,
            index: 4
        }
        .to_string(),
        "4[]".to_string()
    );
    assert_eq!(
        Word {
            bit_range: BitRange::Single(5),
            index: 4
        }
        .to_string(),
        "4[5]".to_string()
    );
    assert_eq!(
        Word {
            bit_range: BitRange::Literal("0x340A".to_string()),
            index: 4
        }
        .to_string(),
        "4[0x340A]".to_string()
    );
}

#[test]
fn test_repeat_fixed() {
    let data = ";12";
    let (_, r) = repeat(data).unwrap();
    assert_eq!(r, Repeat::Fixed { number: 12 });

    let data = ";6";
    let (_, r) = repeat(data).unwrap();
    assert_eq!(r, Repeat::Fixed { number: 6 });
}

#[test]
fn test_repeat_dependent_simple() {
    let data = ";(4[])<49";
    let (_, r) = repeat(data).unwrap();
    let expected_dependent_bit_spec = BitSpec {
        start: Word {
            index: 4,
            bit_range: BitRange::WholeWord,
        },
        end: None,
        repeat: Repeat::NoRepeat,
    };

    let expected = Repeat::Dependent {
        bit_spec: Box::new(expected_dependent_bit_spec),
        limit: 48,
    };
    assert_eq!(r, expected);
}

#[test]
fn test_repeat_dependent_no_limit_error() {
    let data = ";(4[])";
    assert!(repeat(data).is_err());
}

#[test]
fn test_repeat_dependent_explicit_range() {
    let data = ";(4[]..5[])<49";
    let (_, r) = repeat(data).unwrap();
    let expected_dependent_bit_spec = BitSpec {
        start: Word {
            index: 4,
            bit_range: BitRange::WholeWord,
        },
        end: Some(Word {
            index: 5,
            bit_range: BitRange::WholeWord,
        }),
        repeat: Repeat::NoRepeat,
    };

    let expected = Repeat::Dependent {
        bit_spec: Box::new(expected_dependent_bit_spec),
        limit: 48,
    };
    assert_eq!(r, expected);
}

#[test]
fn test_repeat_dependent_limited_range() {
    let data = ";(4[];2)<49";
    let (_, r) = repeat(data).unwrap();
    let expected_dependent_bit_spec = BitSpec {
        start: Word {
            index: 4,
            bit_range: BitRange::WholeWord,
        },
        end: None,
        repeat: Repeat::Fixed { number: 2 },
    };

    let expected = Repeat::Dependent {
        bit_spec: Box::new(expected_dependent_bit_spec),
        limit: 48,
    };
    assert_eq!(r, expected);
}

#[test]
fn test_fixed_repeat_to_string_() {
    assert_eq!(Repeat::Fixed { number: 12 }.to_string(), "12");
}

#[test]
fn test_no_repeat_to_string() {
    assert_eq!(Repeat::NoRepeat.to_string(), "");
}

#[test]
fn test_single_word_dependent_repeat_to_string() {
    let expected_dependent_bit_spec = BitSpec {
        start: Word {
            index: 4,
            bit_range: BitRange::WholeWord,
        },
        end: None,
        repeat: Repeat::NoRepeat,
    };
    assert_eq!(
        Repeat::Dependent {
            bit_spec: Box::new(expected_dependent_bit_spec),
            limit: 48
        }
        .to_string(),
        "(4[])<=48"
    );
}

#[test]
fn test_word_range_dependent_repeat_to_string_1() {
    let expected_dependent_bit_spec = BitSpec {
        start: Word {
            index: 4,
            bit_range: BitRange::WholeWord,
        },
        end: Some(Word {
            index: 5,
            bit_range: BitRange::WholeWord,
        }),
        repeat: Repeat::NoRepeat,
    };
    assert_eq!(
        Repeat::Dependent {
            bit_spec: Box::new(expected_dependent_bit_spec),
            limit: 48
        }
        .to_string(),
        "(4[]..5[])<=48"
    );
}

#[test]
fn test_word_range_dependent_repeat_to_string_2() {
    let expected_dependent_bit_spec = BitSpec {
        start: Word {
            index: 4,
            bit_range: BitRange::WholeWord,
        },
        end: None,
        repeat: Repeat::Fixed { number: 2 },
    };
    assert_eq!(
        Repeat::Dependent {
            bit_spec: Box::new(expected_dependent_bit_spec),
            limit: 48
        }
        .to_string(),
        "(4[];2)<=48"
    );
}

#[test]
fn test_dependent_repeat() {
    let data = "(4[])<=48";
    let (_, r) = dependent_repeat(data).unwrap();

    let dependent_bit_spec = BitSpec {
        start: Word {
            index: 4,
            bit_range: BitRange::WholeWord,
        },
        end: None,
        repeat: Repeat::NoRepeat,
    };

    let expected = Repeat::Dependent {
        bit_spec: Box::new(dependent_bit_spec),
        limit: 48,
    };
    assert_eq!(r, expected);
}

#[test]
fn test_dependent_repeat_with_bit_range() {
    let data = "(4[0..7])<49";
    let (_, r) = dependent_repeat(data).unwrap();
    let expected_bit_spec = BitSpec {
        start: Word {
            index: 4,
            bit_range: BitRange::Range(0, 7),
        },
        end: None,
        repeat: Repeat::NoRepeat,
    };

    let expected = Repeat::Dependent {
        bit_spec: Box::new(expected_bit_spec),
        limit: 48,
    };
    assert_eq!(r, expected);
}

#[test]
fn test_fixed_repeat() {
    let data = "48";
    let (_, r) = fixed_repeat(data).unwrap();
    assert_eq!(r, Repeat::Fixed { number: 48 });
}

#[test]
fn test_variable_repeat() {
    let data = "<42";
    let (_, r) = variable_repeat(data).unwrap();
    assert_eq!(r, Repeat::Variable { limit: 41 });

    let data = "<=42";
    let (_, r) = variable_repeat(data).unwrap();
    assert_eq!(r, Repeat::Variable { limit: 42 });
}

#[test]
fn test_condition() {
    let data = "<";
    let (_, r) = condition(data).unwrap();
    assert_eq!(r, Condition::Lt);

    let data = "<=";
    let (_, r) = condition(data).unwrap();
    assert_eq!(r, Condition::Lte);

    let data = "";
    assert!(condition(data).is_err());

    let data = "==";
    assert!(condition(data).is_err());
}

#[test]
fn parser_test_bit_spec_with_simple_forms() {
    let data = "4";
    let (_, r) = bit_spec(data).unwrap();
    let expected = BitSpec {
        start: Word {
            index: 0,
            bit_range: BitRange::Single(4),
        },
        end: None,
        repeat: Repeat::NoRepeat,
    };
    assert_eq!(r, expected);

    let data = "4..6";
    let (_, r) = bit_spec(data).unwrap();
    let expected = BitSpec {
        start: Word {
            index: 0,
            bit_range: BitRange::Range(4, 6),
        },
        end: None,
        repeat: Repeat::NoRepeat,
    };
    assert_eq!(r, expected);

    let data = "[4..6]";
    let (_, r) = bit_spec(data).unwrap();
    let expected = BitSpec {
        start: Word {
            index: 0,
            bit_range: BitRange::Range(4, 6),
        },
        end: None,
        repeat: Repeat::NoRepeat,
    };
    assert_eq!(r, expected);

    let data = "5[3..7]";
    let (_, r) = bit_spec(data).unwrap();
    let expected = BitSpec {
        start: Word {
            index: 5,
            bit_range: BitRange::Range(3, 7),
        },
        end: None,
        repeat: Repeat::NoRepeat,
    };
    assert_eq!(r, expected);

    let data = "5[]";
    let (_, r) = bit_spec(data).unwrap();
    let expected = BitSpec {
        start: Word {
            index: 5,
            bit_range: BitRange::WholeWord,
        },
        end: None,
        repeat: Repeat::NoRepeat,
    };
    assert_eq!(r, expected);
}

#[test]
fn test_bit_spec_with_repeat() {
    let data = "3[4..7]..6[0..5];48";

    let (_, r) = bit_spec(data).unwrap();

    let expected = BitSpec {
        start: Word {
            index: 3,
            bit_range: BitRange::Range(4, 7),
        },
        end: Some(Word {
            index: 6,
            bit_range: BitRange::Range(0, 5),
        }),
        repeat: Repeat::Fixed { number: 48 },
    };
    assert_eq!(r, expected);

    let data = "4[]..7[];(3[])<49";
    let (_, r) = bit_spec(data).unwrap();

    let repeat = Repeat::Dependent {
        bit_spec: Box::new(BitSpec {
            start: Word {
                index: 3,
                bit_range: BitRange::WholeWord,
            },
            end: None,
            repeat: Repeat::NoRepeat,
        }),
        limit: 48,
    };
    let expected = BitSpec {
        start: Word {
            index: 4,
            bit_range: BitRange::WholeWord,
        },
        end: Some(Word {
            index: 7,
            bit_range: BitRange::WholeWord,
        }),
        repeat: repeat,
    };
    assert_eq!(r, expected);
}

#[test]
fn parser_test_bit_spec() {
    let data = "3[4..7]..6[0..5]";

    let (_, r) = bit_spec(data).unwrap();

    let expected = BitSpec {
        start: Word {
            index: 3,
            bit_range: BitRange::Range(4, 7),
        },
        end: Some(Word {
            index: 6,
            bit_range: BitRange::Range(0, 5),
        }),
        repeat: Repeat::NoRepeat,
    };
    assert_eq!(r, expected);

    let data = "4[]..7[]";
    let (_, r) = bit_spec(data).unwrap();
    let expected = BitSpec {
        start: Word {
            index: 4,
            bit_range: BitRange::WholeWord,
        },
        end: Some(Word {
            index: 7,
            bit_range: BitRange::WholeWord,
        }),
        repeat: Repeat::NoRepeat,
    };
    assert_eq!(r, expected);

    let data = "[]..5[]";
    let (_, r) = bit_spec(data).unwrap();
    let expected = BitSpec {
        start: Word {
            index: 0,
            bit_range: BitRange::WholeWord,
        },
        end: Some(Word {
            index: 5,
            bit_range: BitRange::WholeWord,
        }),
        repeat: Repeat::NoRepeat,
    };
    assert_eq!(r, expected);

    let data = "[]";
    let (_, r) = bit_spec(data).unwrap();
    let expected = BitSpec {
        start: Word {
            index: 0,
            bit_range: BitRange::WholeWord,
        },
        end: None,
        repeat: Repeat::NoRepeat,
    };
    assert_eq!(r, expected);

    let data = "[]..6[0..5]";
    let (_, r) = bit_spec(data).unwrap();
    let expected = BitSpec {
        start: Word {
            index: 0,
            bit_range: BitRange::WholeWord,
        },
        end: Some(Word {
            index: 6,
            bit_range: BitRange::Range(0, 5),
        }),
        repeat: Repeat::NoRepeat,
    };
    assert_eq!(r, expected);
}

// Not recommanded, but still accepted patterns.
#[test]
fn test_bit_spec_special_cases() {
    let data = "3..5..4[]";
    let (_, r) = bit_spec(data).unwrap();
    let expected = BitSpec {
        start: Word {
            index: 0,
            bit_range: BitRange::Range(3, 5),
        },
        end: Some(Word {
            index: 4,
            bit_range: BitRange::WholeWord,
        }),
        repeat: Repeat::NoRepeat,
    };
    assert_eq!(r, expected);
}

#[test]
fn test_word() {
    let data = "3[2..6]";
    let (_, r) = word(data).unwrap();
    assert_eq!(
        r,
        Word {
            index: 3,
            bit_range: BitRange::Range(2, 6)
        }
    );

    let data = "4[]";
    let (_, r) = word(data).unwrap();
    assert_eq!(
        r,
        Word {
            index: 4,
            bit_range: BitRange::WholeWord
        }
    );

    let data = "[]";
    let (_, r) = word(data).unwrap();
    assert_eq!(
        r,
        Word {
            index: 0,
            bit_range: BitRange::WholeWord
        }
    );

    let data = "3[]";
    let (_, r) = word(data).unwrap();
    assert_eq!(
        r,
        Word {
            index: 3,
            bit_range: BitRange::WholeWord
        }
    );

    let data = "7";
    let (_, r) = word(data).unwrap();
    assert_eq!(
        r,
        Word {
            index: 0,
            bit_range: BitRange::Single(7)
        }
    )
}

#[test]
fn test_full_word() {
    let data = "3[4..6]";
    let (_, r) = fully_qualified_word(data).unwrap();

    let expected_word = Word {
        index: 3,
        bit_range: BitRange::Range(4, 6),
    };

    assert_eq!(r, expected_word);

    let data = "9[]";
    let (_, r) = fully_qualified_word(data).unwrap();
    let expected_word = Word {
        index: 9,
        bit_range: BitRange::WholeWord,
    };
    assert_eq!(r, expected_word);

    let data = "[3..7]";
    let (_, r) = fully_qualified_word(data).unwrap();
    let expected_word = Word {
        index: 0,
        bit_range: BitRange::Range(3, 7),
    };
    assert_eq!(r, expected_word);

    let data = "[]";
    let (_, r) = fully_qualified_word(data).unwrap();
    let expected_word = Word {
        index: 0,
        bit_range: BitRange::WholeWord,
    };
    assert_eq!(r, expected_word);
}

#[test]
fn test_bit_range() {
    let data = "4..6";
    let (_, r) = bit_range(data).unwrap();
    assert_eq!(r, BitRange::Range(4, 6));

    let data = "7";
    let (_, r) = bit_range(data).unwrap();
    assert_eq!(r, BitRange::Single(7));
}

#[test]
fn test_single_bit() {
    let data = "2";
    let (_, r) = single_bit(data).unwrap();
    assert_eq!(r, BitRange::Single(2));
}

#[test]
fn test_range() {
    let data = "2..45";
    let (_, r) = range(data).unwrap();
    assert_eq!(r, BitRange::Range(2, 45));
}

#[test]
fn test_index() {
    let data = "34";
    let (_, i) = index(data).unwrap();
    assert_eq!(i, 34);

    let data = "7";
    let (_, i) = index(data).unwrap();
    assert_eq!(i, 7);

    let data = "48";
    let (_, i) = index(data).unwrap();
    assert_eq!(i, 48);
}

#[test]
fn parser_test_literal() {
    let data = "0xABCD";
    let (_, r) = literal(data).unwrap();
    assert_eq!(r, "0xABCD".to_string());

    let data = "0b1011_1100";
    let (_, r) = literal(data).unwrap();
    assert_eq!(r, "0b1011_1100".to_string());

    let data = "0b_1011_11b0";
    assert!(literal(data).is_err());

    let data = "0Xzb";
    assert!(literal(data).is_err());
}

#[test]
fn test_hexadecimal_literal() {
    let data = "0x45B7";
    let (_, hex) = hexadecimal_literal(data).unwrap();
    assert_eq!(hex, "0x45B7".to_string());

    let data = "0X45_B7";
    let (_, hex) = hexadecimal_literal(data).unwrap();
    assert_eq!(hex, "0x45_B7".to_string());

    let data = "45B7";
    assert!(hexadecimal_literal(data).is_err());

    let data = "0xZZ";
    assert!(hexadecimal_literal(data).is_err());

    let data = "0x45ZZ";
    let (_, hex) = hexadecimal_literal(data).unwrap();
    assert_eq!(hex, "0x45".to_string());
}

#[test]
fn test_binary_literal() {
    let data = "0b10001100";
    let (_, bin) = binary_literal(data).unwrap();
    assert_eq!(bin, "0b10001100".to_string());

    let data = "0b1000_1100";
    let (_, bin) = binary_literal(data).unwrap();
    assert_eq!(bin, "0b1000_1100".to_string());

    let data = "0b100155";
    let (_, bin) = binary_literal(data).unwrap();
    assert_eq!(bin, "0b1001".to_string());

    let data = "0101";
    assert!(binary_literal(data).is_err())
}
