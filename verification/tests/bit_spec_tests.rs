use ddgen::bit_spec::{BitRange, BitSpec, LiteralType, Repeat, Word};

fn whole(index: usize) -> Word {
    Word {
        index,
        bit_range: BitRange::WholeWord,
    }
}

#[test]
fn bit_range_ordering() {
    let lower = BitRange::Single(3);
    let upper = BitRange::Single(4);
    assert!(upper > lower);

    let lower = BitRange::Range(2, 5);
    let upper = BitRange::Range(5, 7);
    assert!(upper > lower);

    let lower = BitRange::Range(2, 5);
    let upper = BitRange::Range(4, 7);
    assert!(upper > lower);

    let lower = BitRange::WholeWord;
    let upper = BitRange::WholeWord;
    assert!(upper == lower);

    let lower = BitRange::Literal("0x02".to_string());
    let upper = BitRange::Literal("0xF5".to_string());
    assert!(upper > lower);

    let lower = LiteralType::Hex("0x02".to_string());
    let upper = LiteralType::Hex("0xF5".to_string());
    assert!(upper > lower);
}

#[test]
fn simple_word_ordering() {
    let lower = whole(1);
    let upper = whole(2);
    assert!(upper > lower);
}

#[test]
fn bit_spec_ordering() {
    let lower_bit_spec = BitSpec {
        start: whole(1),
        end: None,
        repeat: Repeat::NoRepeat,
    };
    let upper_bit_spec = BitSpec {
        start: whole(2),
        end: None,
        repeat: Repeat::NoRepeat,
    };
    assert!(upper_bit_spec > lower_bit_spec);
}

#[test]
fn bit_spec_with_ranges_ordering() {
    let lower_bit_spec = BitSpec {
        start: whole(1),
        end: Some(whole(3)),
        repeat: Repeat::NoRepeat,
    };
    let upper_bit_spec = BitSpec {
        start: whole(4),
        end: Some(whole(5)),
        repeat: Repeat::NoRepeat,
    };
    assert!(upper_bit_spec > lower_bit_spec);
}

#[test]
fn bit_spec_with_bit_ordering() {
    let lower_bit_spec = BitSpec {
        start: Word {
            index: 1,
            bit_range: BitRange::Single(4),
        },
        end: None,
        repeat: Repeat::NoRepeat,
    };
    let upper_bit_spec = BitSpec {
        start: Word {
            index: 1,
            bit_range: BitRange::Single(5),
        },
        end: None,
        repeat: Repeat::NoRepeat,
    };
    assert!(upper_bit_spec > lower_bit_spec);
}

#[test]
fn ordering_bit_ranges() {
    let lower_bit_spec = BitSpec {
        start: Word {
            index: 1,
            bit_range: BitRange::Range(2, 5),
        },
        end: None,
        repeat: Repeat::NoRepeat,
    };
    let upper_bit_spec = BitSpec {
        start: Word {
            index: 1,
            bit_range: BitRange::Range(6, 7),
        },
        end: None,
        repeat: Repeat::NoRepeat,
    };
    assert!(upper_bit_spec > lower_bit_spec);
}

fn counter(index: usize) -> Box<BitSpec> {
    Box::new(BitSpec {
        start: whole(index),
        end: None,
        repeat: Repeat::NoRepeat,
    })
}

#[test]
fn test_max_repeats() {
    let repeat = Repeat::NoRepeat;
    assert_eq!(repeat.max_repeats(), 1);

    let repeat = Repeat::Fixed { number: 5 };
    assert_eq!(repeat.max_repeats(), 5);

    let repeat = Repeat::Dependent {
        bit_spec: counter(5),
        limit: 5,
    };
    assert_eq!(repeat.max_repeats(), 5);

    let repeat = Repeat::Dependent {
        bit_spec: counter(5),
        limit: 6,
    };
    assert_eq!(repeat.max_repeats(), 6);

    let repeat = Repeat::Variable { limit: 7 };
    assert_eq!(repeat.max_repeats(), 7);
}

#[test]
fn test_bit_spec_to_string() {
    assert_eq!(
        BitSpec {
            start: Word {
                index: 6,
                bit_range: BitRange::Single(4)
            },
            end: None,
            repeat: Repeat::NoRepeat
        }
        .to_string(),
        "6[4]"
    );

    assert_eq!(
        BitSpec {
            start: Word {
                index: 6,
                bit_range: BitRange::Single(4)
            },
            end: Some(Word {
                index: 8,
                bit_range: BitRange::Range(1, 6)
            }),
            repeat: Repeat::NoRepeat
        }
        .to_string(),
        "6[4]..8[1..6]"
    );

    assert_eq!(
        BitSpec {
            start: whole(6),
            end: Some(Word {
                index: 8,
                bit_range: BitRange::Range(1, 6)
            }),
            repeat: Repeat::Fixed { number: 10 }
        }
        .to_string(),
        "6[]..8[1..6];10"
    );

    assert_eq!(
        BitSpec {
            start: whole(6),
            end: Some(whole(8)),
            repeat: Repeat::Dependent {
                bit_spec: counter(3),
                limit: 10,
            }
        }
        .to_string(),
        "6[]..8[];(3[])<=10"
    );
}

#[test]
fn test_suggested_word_type() {
    let bit_spec = BitSpec {
        start: Word {
            index: 4,
            bit_range: BitRange::Single(5),
        },
        end: None,
        repeat: Repeat::NoRepeat,
    };
    assert_eq!(bit_spec.suggested_word_type(), "bool");

    let bit_spec = BitSpec {
        start: Word {
            index: 4,
            bit_range: BitRange::Range(5, 7),
        },
        end: None,
        repeat: Repeat::NoRepeat,
    };
    assert_eq!(bit_spec.suggested_word_type(), "u8");

    let bit_spec = BitSpec {
        start: whole(4),
        end: None,
        repeat: Repeat::NoRepeat,
    };
    assert_eq!(bit_spec.suggested_word_type(), "u8");

    let bit_spec = BitSpec {
        start: whole(4),
        end: Some(whole(5)),
        repeat: Repeat::NoRepeat,
    };
    assert_eq!(bit_spec.suggested_word_type(), "u16");

    let bit_spec = BitSpec {
        start: whole(4),
        end: Some(whole(11)),
        repeat: Repeat::NoRepeat,
    };
    assert_eq!(bit_spec.suggested_word_type(), "u64");
}

#[test]
fn suggested_word_type_of_four_words_and_more() {
    let four = BitSpec {
        start: whole(4),
        end: Some(whole(7)),
        repeat: Repeat::NoRepeat,
    };
    assert_eq!(four.suggested_word_type(), "u32");

    let sixteen = BitSpec {
        start: whole(0),
        end: Some(whole(15)),
        repeat: Repeat::NoRepeat,
    };
    assert_eq!(sixteen.suggested_word_type(), "u128");
}

#[test]
fn max_size_of_built_bit_specs() {
    let fixed = BitSpec {
        start: whole(2),
        end: Some(whole(3)),
        repeat: Repeat::Fixed { number: 4 },
    };
    assert_eq!(fixed.max_size(), 8);

    let variable = BitSpec {
        start: whole(2),
        end: None,
        repeat: Repeat::Variable { limit: 9 },
    };
    assert_eq!(variable.max_size(), 9);
}
