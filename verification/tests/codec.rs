use binformat::codec::Codec;
use binformat::datum::Datum;
use binformat::expr::{BinaryOp, Expr};
use binformat::primitive::{Endianness, PrimitiveType, Scalar};
use binformat::schema::{Condition, DataType, Field, Repetition, Schema};
use binformat::wire::{DecodeError, EncodeError};

fn plain(id: &str, kind: PrimitiveType) -> Field {
    Field { id: id.to_string(), data_type: DataType::Primitive(kind), condition: None, repetition: None }
}

fn count_positive() -> Expr {
    Expr::Binary(BinaryOp::Gt, Box::new(Expr::Local("count".to_string())), Box::new(Expr::Number(0)))
}

fn sample_schema(endianness: Endianness) -> Schema {
    Schema {
        endianness,
        types: vec![],
        items: vec![
            plain("version", PrimitiveType::U16),
            plain("count", PrimitiveType::U8),
            Field {
                id: "flag".to_string(),
                data_type: DataType::Primitive(PrimitiveType::Bool),
                condition: Some(Condition { expression: count_positive(), advance_if_false: true }),
                repetition: None,
            },
            Field {
                id: "items".to_string(),
                data_type: DataType::Primitive(PrimitiveType::U32),
                condition: None,
                repetition: Some(Repetition::Count(Expr::Local("count".to_string()))),
            },
        ],
    }
}

#[test]
fn decodes_record_with_present_flag_and_three_items() {
    let codec = Codec::new(sample_schema(Endianness::Little)).unwrap();
    let input = [0x02, 0x00, 0x03, 0x01, 0x05, 0, 0, 0, 0x06, 0, 0, 0, 0x07, 0, 0, 0];
    let (value, consumed) = codec.decode(&input).unwrap();
    assert_eq!(consumed, 16);
    let expected = Datum::Record(vec![
        Datum::Scalar(Scalar::U16(2)),
        Datum::Scalar(Scalar::U8(3)),
        Datum::Optional(Some(Box::new(Datum::Scalar(Scalar::Bool(true))))),
        Datum::List(vec![
            Datum::Scalar(Scalar::U32(5)),
            Datum::Scalar(Scalar::U32(6)),
            Datum::Scalar(Scalar::U32(7)),
        ]),
    ]);
    assert_eq!(value, expected);
    assert_eq!(codec.encode(&value, 16).unwrap(), input.to_vec());
}

#[test]
fn decodes_record_with_absent_flag_and_no_items() {
    let codec = Codec::new(sample_schema(Endianness::Little)).unwrap();
    let input = [0x02, 0x00, 0x00, 0x00, 0x00, 0x00];
    let (value, consumed) = codec.decode(&input).unwrap();
    assert_eq!(consumed, 4);
    let expected = Datum::Record(vec![
        Datum::Scalar(Scalar::U16(2)),
        Datum::Scalar(Scalar::U8(0)),
        Datum::Optional(None),
        Datum::List(vec![]),
    ]);
    assert_eq!(value, expected);
    assert_eq!(codec.encode(&value, 64).unwrap(), vec![0x02, 0x00, 0x00, 0x00]);
}

#[test]
fn truncated_input_fails_the_whole_decode() {
    let codec = Codec::new(sample_schema(Endianness::Big)).unwrap();
    let input = [0x00, 0x02, 0x02, 0x01, 0, 0, 0, 5, 0, 0];
    assert_eq!(codec.decode(&input), Err(DecodeError::Truncated));
}

#[test]
fn encode_fails_when_the_sink_is_too_small() {
    let codec = Codec::new(sample_schema(Endianness::Little)).unwrap();
    let value = Datum::Record(vec![
        Datum::Scalar(Scalar::U16(2)),
        Datum::Scalar(Scalar::U8(0)),
        Datum::Optional(None),
        Datum::List(vec![]),
    ]);
    assert_eq!(codec.encode(&value, 3), Err(EncodeError::SinkFailure));
    assert_eq!(codec.encode(&value, 4).unwrap().len(), 4);
}

use binformat::codec::{
    check_schema, read_base, read_element, read_elements, read_field, read_fields, write_base, write_element,
    write_elements, write_field, write_fields,
};
use binformat::document::parse_schema;
use binformat::expr::{Binding, Operand};
use binformat::schema::{context_end, field_is_context, find_type_index, CompositeType, SchemaError};
use binformat::wire::DEFAULT_NESTING;

fn codec_of(source: &str) -> Codec {
    Codec::new(parse_schema(source).unwrap()).unwrap()
}

fn u8_of(value: u8) -> Datum {
    Datum::Scalar(Scalar::U8(value))
}

const NESTED: &str = "
meta:
  endian: be
types:
  Entry:
    - id: kind
      type: u8
    - id: wide
      type: u32
      if: _root.version >= 2
    - id: narrow
      type: u16
      if: _root.version < 2 && kind != 0
items:
  - id: version
    type: u8
  - id: n
    type: u8
  - id: entries
    type: Entry
    repeat: Count(n)
  - id: tail
    type: i16
";

#[test]
fn nested_records_see_the_shared_context() {
    let codec = codec_of(NESTED);
    assert_eq!(codec.context_len(), 2);
    let input = [2, 2, 7, 0, 0, 1, 0, 9, 0, 0, 0, 5, 0xff, 0xfe];
    let (value, consumed) = codec.decode(&input).unwrap();
    assert_eq!(consumed, input.len());
    let entry = |kind: u8, wide: u32| {
        Datum::Record(vec![
            u8_of(kind),
            Datum::Optional(Some(Box::new(Datum::Scalar(Scalar::U32(wide))))),
            Datum::Optional(None),
        ])
    };
    assert_eq!(
        value,
        Datum::Record(vec![
            u8_of(2),
            u8_of(2),
            Datum::List(vec![entry(7, 256), entry(9, 5)]),
            Datum::Scalar(Scalar::I16(-2)),
        ])
    );
    assert_eq!(codec.encode(&value, 64).unwrap(), input.to_vec());
}

#[test]
fn nested_records_follow_the_context_of_the_input() {
    let codec = codec_of(NESTED);
    let input = [1, 2, 7, 0, 3, 0, 0, 4];
    let (value, consumed) = codec.decode(&input).unwrap();
    assert_eq!(consumed, 8);
    assert_eq!(
        value,
        Datum::Record(vec![
            u8_of(1),
            u8_of(2),
            Datum::List(vec![
                Datum::Record(vec![
                    u8_of(7),
                    Datum::Optional(None),
                    Datum::Optional(Some(Box::new(Datum::Scalar(Scalar::U16(3))))),
                ]),
                Datum::Record(vec![u8_of(0), Datum::Optional(None), Datum::Optional(None)]),
            ]),
            Datum::Scalar(Scalar::I16(4)),
        ])
    );
    assert_eq!(codec.encode(&value, 8).unwrap(), input.to_vec());
}

#[test]
fn nested_record_cannot_name_a_root_field_outside_the_context() {
    let source = "
types:
  Inner:
    - id: a
      type: u8
      if: late > 0
items:
  - id: early
    type: u8
  - id: late
    type: u8
    if: early > 0
  - id: inner
    type: Inner
";
    let codec = codec_of(source);
    assert_eq!(codec.context_len(), 1);
    assert_eq!(codec.decode(&[1, 1, 1]), Err(DecodeError::ExpressionEvaluationFailed));
    let through_root = source.replace("late > 0", "_root.late > 0");
    assert_eq!(codec_of(&through_root).decode(&[1, 1, 1]), Err(DecodeError::ExpressionEvaluationFailed));
    let by_context = source.replace("late > 0", "_root.early > 0");
    assert!(codec_of(&by_context).decode(&[1, 1, 1]).is_ok());
    let local_early = source.replace("late > 0", "early > 0");
    assert_eq!(codec_of(&local_early).decode(&[1, 1, 1]), Err(DecodeError::ExpressionEvaluationFailed));
}

#[test]
fn expression_cannot_name_its_own_or_a_later_field() {
    let later = "items:\n  - id: a\n    type: u8\n    if: b > 0\n  - id: b\n    type: u8\n";
    assert_eq!(codec_of(later).decode(&[1, 1]), Err(DecodeError::ExpressionEvaluationFailed));
    let own = "items:\n  - id: a\n    type: u8\n    if: a > 0\n";
    assert_eq!(codec_of(own).decode(&[1]), Err(DecodeError::ExpressionEvaluationFailed));
    let earlier = "items:\n  - id: b\n    type: u8\n  - id: a\n    type: u8\n    if: b > 0\n";
    assert!(codec_of(earlier).decode(&[1, 1]).is_ok());
}

#[test]
fn context_is_empty_when_the_first_field_is_not_a_plain_scalar() {
    let conditional = "items:\n  - id: a\n    type: u8\n    if: 1 > 0\n  - id: b\n    type: u8\n";
    assert_eq!(codec_of(conditional).context_len(), 0);
    let repeated = "items:\n  - id: a\n    type: u8\n    repeat: Count(1)\n  - id: b\n    type: u8\n";
    assert_eq!(codec_of(repeated).context_len(), 0);
    let composite = "types:\n  T: []\nitems:\n  - id: a\n    type: T\n  - id: b\n    type: u8\n";
    assert_eq!(codec_of(composite).context_len(), 0);
    let reference = "items:\n  - id: a\n    type: u8\n    if: 1 > 0\n  - id: b\n    type: u8\n    if: _root.a > 0\n";
    assert_eq!(codec_of(reference).decode(&[1, 1]), Err(DecodeError::ExpressionEvaluationFailed));
    let plain = "items:\n  - id: a\n    type: bool\n  - id: b\n    type: f32\n  - id: c\n    type: i64\n";
    assert_eq!(codec_of(plain).context_len(), 3);
    assert_eq!(codec_of("items: []\n").context_len(), 0);
}

#[test]
fn context_boundary_is_the_first_field_that_is_not_a_plain_scalar() {
    let schema = sample_schema(Endianness::Little);
    assert_eq!(context_end(&schema.items), 2);
    assert!(field_is_context(&schema.items[0]));
    assert!(field_is_context(&schema.items[1]));
    assert!(!field_is_context(&schema.items[2]));
    assert!(!field_is_context(&schema.items[3]));
    assert_eq!(context_end(&vec![]), 0);
    let composite = Field {
        id: "c".to_string(),
        data_type: DataType::Composite("T".to_string()),
        condition: None,
        repetition: None,
    };
    assert!(!field_is_context(&composite));
    assert_eq!(context_end(&vec![plain("a", PrimitiveType::U8), composite, plain("b", PrimitiveType::U8)]), 1);
}

#[test]
fn absent_scalar_reserves_its_width_whatever_the_bytes_hold() {
    for (kind, width) in [("u8", 1usize), ("i16", 2), ("f32", 4), ("u64", 8), ("bool", 1)] {
        let source = format!(
            "items:\n  - id: on\n    type: u8\n  - id: x\n    type: {}\n    if: on != 0\n    advance_if_false: true\n  - id: end\n    type: u8\n",
            kind
        );
        let codec = codec_of(&source);
        for fill in [0x00u8, 0x5a, 0xff] {
            let mut input = vec![0u8];
            input.extend(std::iter::repeat(fill).take(width));
            input.push(9);
            let (value, consumed) = codec.decode(&input).unwrap();
            assert_eq!(consumed, width + 2);
            assert_eq!(value, Datum::Record(vec![u8_of(0), Datum::Optional(None), u8_of(9)]));
            let mut expected = vec![0u8];
            expected.extend(std::iter::repeat(0u8).take(width));
            expected.push(9);
            assert_eq!(codec.encode(&value, 64).unwrap(), expected);
        }
        let short = vec![0u8; width];
        assert_eq!(codec.decode(&short), Err(DecodeError::Truncated));
    }
}

#[test]
fn absent_field_without_reserved_space_consumes_nothing() {
    let source = "items:\n  - id: on\n    type: u8\n  - id: x\n    type: u32\n    if: on != 0\n  - id: end\n    type: u8\n";
    let codec = codec_of(source);
    let (value, consumed) = codec.decode(&[0, 7]).unwrap();
    assert_eq!(consumed, 2);
    assert_eq!(value, Datum::Record(vec![u8_of(0), Datum::Optional(None), u8_of(7)]));
    assert_eq!(codec.encode(&value, 2).unwrap(), vec![0, 7]);
    let (value, consumed) = codec.decode(&[1, 1, 0, 0, 0, 7]).unwrap();
    assert_eq!(consumed, 6);
    assert_eq!(codec.encode(&value, 6).unwrap(), vec![1, 1, 0, 0, 0, 7]);
}

#[test]
fn repeated_conditional_field_is_a_list_of_optional_values() {
    let source = "items:\n  - id: n\n    type: u8\n  - id: on\n    type: bool\n  - id: xs\n    type: u8\n    if: on\n    advance_if_false: true\n    repeat: Count(n)\n";
    let codec = codec_of(source);
    let (value, consumed) = codec.decode(&[2, 1, 5, 6]).unwrap();
    assert_eq!(consumed, 4);
    assert_eq!(
        value,
        Datum::Record(vec![
            u8_of(2),
            Datum::Scalar(Scalar::Bool(true)),
            Datum::List(vec![
                Datum::Optional(Some(Box::new(u8_of(5)))),
                Datum::Optional(Some(Box::new(u8_of(6)))),
            ]),
        ])
    );
    let (value, consumed) = codec.decode(&[2, 0, 5, 6]).unwrap();
    assert_eq!(consumed, 4);
    assert_eq!(
        value,
        Datum::Record(vec![
            u8_of(2),
            Datum::Scalar(Scalar::Bool(false)),
            Datum::List(vec![Datum::Optional(None), Datum::Optional(None)]),
        ])
    );
    assert_eq!(codec.encode(&value, 4).unwrap(), vec![2, 0, 0, 0]);
}

#[test]
fn count_of_zero_gives_an_empty_list_and_consumes_nothing() {
    let source = "items:\n  - id: xs\n    type: u64\n    repeat: Count(0)\n  - id: end\n    type: u8\n";
    let codec = codec_of(source);
    assert_eq!(codec.decode(&[4]), Ok((Datum::Record(vec![Datum::List(vec![]), u8_of(4)]), 1)));
}

#[test]
fn one_failing_element_fails_the_whole_field() {
    let source = "items:\n  - id: n\n    type: u8\n  - id: xs\n    type: u16\n    repeat: Count(n)\n";
    let codec = codec_of(source);
    assert_eq!(codec.decode(&[3, 1, 0, 2, 0, 3]), Err(DecodeError::Truncated));
    assert_eq!(codec.decode(&[3, 1, 0, 2, 0]), Err(DecodeError::Truncated));
    let (value, consumed) = codec.decode(&[3, 1, 0, 2, 0, 3, 0, 0xee]).unwrap();
    assert_eq!(consumed, 7);
    assert_eq!(
        value,
        Datum::Record(vec![
            u8_of(3),
            Datum::List(vec![
                Datum::Scalar(Scalar::U16(1)),
                Datum::Scalar(Scalar::U16(2)),
                Datum::Scalar(Scalar::U16(3)),
            ]),
        ])
    );
}

#[test]
fn count_that_is_no_count_fails_the_decode() {
    let negative = "items:\n  - id: n\n    type: i8\n  - id: xs\n    type: u8\n    repeat: Count(n)\n";
    assert_eq!(codec_of(negative).decode(&[0xff, 1]), Err(DecodeError::ExpressionEvaluationFailed));
    let truth = "items:\n  - id: n\n    type: bool\n  - id: xs\n    type: u8\n    repeat: Count(n)\n";
    assert_eq!(codec_of(truth).decode(&[1, 1]), Err(DecodeError::ExpressionEvaluationFailed));
    let float = "items:\n  - id: n\n    type: f32\n  - id: xs\n    type: u8\n    repeat: Count(n)\n";
    assert_eq!(codec_of(float).decode(&[0, 0, 0, 0, 1]), Err(DecodeError::ExpressionEvaluationFailed));
    let condition = "items:\n  - id: n\n    type: u8\n  - id: x\n    type: u8\n    if: n + 1\n";
    assert_eq!(codec_of(condition).decode(&[1, 1]), Err(DecodeError::ExpressionEvaluationFailed));
}

#[test]
fn types_that_nest_without_end_are_cut_off() {
    let source = "types:\n  Node:\n    - id: next\n      type: Node\nitems:\n  - id: head\n    type: Node\n";
    assert_eq!(codec_of(source).decode(&[]), Err(DecodeError::NestingTooDeep));
    let tree = "types:\n  Node:\n    - id: n\n      type: u8\n    - id: kids\n      type: Node\n      repeat: Count(n)\nitems:\n  - id: root\n    type: Node\n";
    let codec = codec_of(tree);
    let (value, consumed) = codec.decode(&[2, 0, 1, 0]).unwrap();
    assert_eq!(consumed, 4);
    assert_eq!(codec.encode(&value, 4).unwrap(), vec![2, 0, 1, 0]);
    let deep = vec![1u8; DEFAULT_NESTING + 1];
    assert_eq!(codec.decode(&deep), Err(DecodeError::NestingTooDeep));
    let mut fits = vec![1u8; DEFAULT_NESTING - 1];
    fits.push(0);
    let (value, consumed) = codec.decode(&fits).unwrap();
    assert_eq!(consumed, DEFAULT_NESTING);
    assert_eq!(codec.encode(&value, DEFAULT_NESTING).unwrap(), fits);
}

#[test]
fn value_of_the_wrong_shape_is_not_encoded() {
    let codec = Codec::new(sample_schema(Endianness::Little)).unwrap();
    let good = || {
        vec![
            Datum::Scalar(Scalar::U16(2)),
            u8_of(1),
            Datum::Optional(None),
            Datum::List(vec![Datum::Scalar(Scalar::U32(5))]),
        ]
    };
    assert!(codec.encode(&Datum::Record(good()), 64).is_ok());
    assert_eq!(codec.encode(&u8_of(1), 64), Err(EncodeError::ShapeMismatch));
    assert_eq!(codec.encode(&Datum::List(good()), 64), Err(EncodeError::ShapeMismatch));
    assert_eq!(codec.encode(&Datum::Record(vec![]), 64), Err(EncodeError::ShapeMismatch));
    let mut long = good();
    long.push(u8_of(0));
    assert_eq!(codec.encode(&Datum::Record(long), 64), Err(EncodeError::ShapeMismatch));
    let mut kind = good();
    kind[0] = Datum::Scalar(Scalar::I16(2));
    assert_eq!(codec.encode(&Datum::Record(kind), 64), Err(EncodeError::ShapeMismatch));
    let mut bare = good();
    bare[2] = Datum::Scalar(Scalar::Bool(true));
    assert_eq!(codec.encode(&Datum::Record(bare), 64), Err(EncodeError::ShapeMismatch));
    let mut single = good();
    single[3] = Datum::Scalar(Scalar::U32(5));
    assert_eq!(codec.encode(&Datum::Record(single), 64), Err(EncodeError::ShapeMismatch));
    let mut element = good();
    element[3] = Datum::List(vec![Datum::Scalar(Scalar::U32(5)), u8_of(5)]);
    assert_eq!(codec.encode(&Datum::Record(element), 0), Err(EncodeError::ShapeMismatch));
}

#[test]
fn encode_follows_the_stored_value_not_the_expressions() {
    let codec = Codec::new(sample_schema(Endianness::Little)).unwrap();
    let value = Datum::Record(vec![
        Datum::Scalar(Scalar::U16(2)),
        u8_of(0),
        Datum::Optional(Some(Box::new(Datum::Scalar(Scalar::Bool(true))))),
        Datum::List(vec![Datum::Scalar(Scalar::U32(5)), Datum::Scalar(Scalar::U32(6))]),
    ]);
    assert_eq!(codec.encode(&value, 64).unwrap(), vec![2, 0, 0, 1, 5, 0, 0, 0, 6, 0, 0, 0]);
}

#[test]
fn decoding_the_encoding_of_a_decoded_record_gives_it_back() {
    let codec = Codec::new(sample_schema(Endianness::Big)).unwrap();
    let inputs: [&[u8]; 4] = [
        &[0, 2, 0, 0xaa],
        &[0, 2, 1, 0x7f, 0, 0, 0, 9],
        &[0xff, 0xff, 2, 0x02, 1, 2, 3, 4, 5, 6, 7, 8, 0xee, 0xee],
        &[0, 0, 0, 0, 0, 0, 0, 0],
    ];
    for input in inputs {
        let (value, consumed) = codec.decode(input).unwrap();
        let bytes = codec.encode(&value, consumed).unwrap();
        assert_eq!(bytes.len(), consumed);
        assert_eq!(codec.decode(&bytes), Ok((value, consumed)));
    }
    let (value, _) = codec.decode(&[0, 2, 1, 0x7f, 0, 0, 0, 9]).unwrap();
    assert_eq!(codec.encode(&value, 8).unwrap(), vec![0, 2, 1, 0x01, 0, 0, 0, 9]);
}

#[test]
fn codec_is_built_from_valid_schemas_only() {
    let mut schema = sample_schema(Endianness::Little);
    assert_eq!(check_schema(&schema), Ok(()));
    schema.items.push(Field {
        id: "x".to_string(),
        data_type: DataType::Composite("Missing".to_string()),
        condition: None,
        repetition: None,
    });
    assert_eq!(check_schema(&schema), Err(SchemaError::Malformed));
    assert!(matches!(Codec::new(schema), Err(SchemaError::Malformed)));
    let mut schema = sample_schema(Endianness::Little);
    schema.types.push(CompositeType {
        name: "Missing".to_string(),
        fields: vec![Field {
            id: "more".to_string(),
            data_type: DataType::Primitive(PrimitiveType::U8),
            condition: None,
            repetition: Some(Repetition::Count(Expr::Number(2))),
        }],
    });
    schema.items.push(Field {
        id: "x".to_string(),
        data_type: DataType::Composite("Missing".to_string()),
        condition: Some(Condition { expression: Expr::Truth(false), advance_if_false: true }),
        repetition: None,
    });
    assert_eq!(check_schema(&schema), Err(SchemaError::Malformed));
    schema.items[4].condition = Some(Condition { expression: Expr::Truth(false), advance_if_false: false });
    assert_eq!(check_schema(&schema), Ok(()));
    let codec = Codec::new(schema).unwrap();
    assert_eq!(codec.schema().items.len(), 5);
    assert_eq!(codec.schema().endianness, Endianness::Little);
}

#[test]
fn types_are_found_by_name_and_the_last_declaration_wins() {
    let types = vec![
        CompositeType { name: "A".to_string(), fields: vec![] },
        CompositeType { name: "B".to_string(), fields: vec![] },
        CompositeType { name: "A".to_string(), fields: vec![plain("x", PrimitiveType::U8)] },
    ];
    assert_eq!(find_type_index(&types, &"A".to_string()), Some(2));
    assert_eq!(find_type_index(&types, &"B".to_string()), Some(1));
    assert_eq!(find_type_index(&types, &"C".to_string()), None);
    assert_eq!(find_type_index(&vec![], &"A".to_string()), None);
}

#[test]
fn fields_are_read_one_layer_at_a_time() {
    let schema = sample_schema(Endianness::Little);
    let none: Vec<Binding> = vec![];
    let scope = vec![Binding { name: "count".to_string(), operand: Some(Operand::Int(2)) }];
    let input = [9, 1, 0, 0, 0, 2, 0, 0, 0];
    assert_eq!(
        read_base(&schema, &DataType::Primitive(PrimitiveType::U16), &input, 0, &none, 0),
        Ok((Datum::Scalar(Scalar::U16(0x0109)), 2))
    );
    assert_eq!(
        read_base(&schema, &DataType::Composite("Nothing".to_string()), &input, 3, &none, 1),
        Ok((Datum::Record(vec![]), 3))
    );
    assert_eq!(
        read_base(&schema, &DataType::Composite("Nothing".to_string()), &input, 3, &none, 0),
        Err(DecodeError::NestingTooDeep)
    );
    assert_eq!(
        read_element(&schema, &schema.items[2], &input, 0, &scope, &none, 0),
        Ok((Datum::Optional(Some(Box::new(Datum::Scalar(Scalar::Bool(true))))), 1))
    );
    assert_eq!(
        read_element(&schema, &schema.items[2], &input, 0, &none, &none, 0),
        Err(DecodeError::ExpressionEvaluationFailed)
    );
    assert_eq!(
        read_elements(&schema, &schema.items[3], 2, &input, 1, &scope, &none, 0),
        Ok((vec![Datum::Scalar(Scalar::U32(1)), Datum::Scalar(Scalar::U32(2))], 9))
    );
    assert_eq!(read_elements(&schema, &schema.items[3], 0, &input, 100, &scope, &none, 0), Ok((vec![], 100)));
    assert_eq!(read_elements(&schema, &schema.items[3], 3, &input, 1, &scope, &none, 0), Err(DecodeError::Truncated));
    assert_eq!(
        read_field(&schema, &schema.items[3], &input, 1, &scope, &none, 0),
        Ok((Datum::List(vec![Datum::Scalar(Scalar::U32(1)), Datum::Scalar(Scalar::U32(2))]), 9))
    );
    assert_eq!(
        read_fields(&schema, &vec![plain("a", PrimitiveType::U8), plain("b", PrimitiveType::U8)], &input, 0, &none, 0),
        Ok((vec![u8_of(9), u8_of(1)], 2))
    );
}

#[test]
fn fields_are_written_one_layer_at_a_time_and_failures_leave_the_sink_alone() {
    let schema = sample_schema(Endianness::Big);
    let mut out = vec![0xaa];
    assert_eq!(write_base(&schema, &DataType::Primitive(PrimitiveType::U16), &Datum::Scalar(Scalar::U16(258)), &mut out), Ok(()));
    assert_eq!(out, vec![0xaa, 1, 2]);
    assert_eq!(
        write_base(&schema, &DataType::Primitive(PrimitiveType::U16), &u8_of(1), &mut out),
        Err(EncodeError::ShapeMismatch)
    );
    assert_eq!(out, vec![0xaa, 1, 2]);
    assert_eq!(write_element(&schema, &schema.items[2], &Datum::Optional(None), &mut out), Ok(()));
    assert_eq!(out, vec![0xaa, 1, 2, 0]);
    assert_eq!(
        write_element(&schema, &schema.items[2], &Datum::Optional(Some(Box::new(Datum::Scalar(Scalar::Bool(true))))), &mut out),
        Ok(())
    );
    assert_eq!(out, vec![0xaa, 1, 2, 0, 1]);
    let mut out = vec![];
    let items = vec![Datum::Scalar(Scalar::U32(1)), u8_of(2)];
    assert_eq!(write_elements(&schema, &schema.items[3], &items, &mut out), Err(EncodeError::ShapeMismatch));
    assert_eq!(out, Vec::<u8>::new());
    assert_eq!(write_field(&schema, &schema.items[3], &Datum::List(items), &mut out), Err(EncodeError::ShapeMismatch));
    assert_eq!(out, Vec::<u8>::new());
    assert_eq!(
        write_field(&schema, &schema.items[3], &Datum::List(vec![Datum::Scalar(Scalar::U32(1))]), &mut out),
        Ok(())
    );
    assert_eq!(out, vec![0, 0, 0, 1]);
    let fields = vec![plain("a", PrimitiveType::U8), plain("b", PrimitiveType::I8)];
    assert_eq!(write_fields(&schema, &fields, &vec![u8_of(1), Datum::Scalar(Scalar::I8(-1))], &mut out), Ok(()));
    assert_eq!(out, vec![0, 0, 0, 1, 1, 0xff]);
    assert_eq!(write_fields(&schema, &fields, &vec![u8_of(1)], &mut out), Err(EncodeError::ShapeMismatch));
    assert_eq!(write_fields(&schema, &fields, &vec![u8_of(1), u8_of(1)], &mut out), Err(EncodeError::ShapeMismatch));
    assert_eq!(out, vec![0, 0, 0, 1, 1, 0xff]);
}

#[test]
fn condition_that_names_a_later_field_fails_whatever_stands_around_the_name() {
    for condition in ["false && later", "true || later", "later || true", "n > 0 && _root.later > 0", "false && own"] {
        let source = format!(
            "
items:
  - id: n
    type: u8
  - id: own
    type: u8
    if: {}
  - id: later
    type: u8
",
            condition
        );
        let codec = codec_of(&source);
        assert_eq!(codec.decode(&[1, 2, 3]), Err(DecodeError::ExpressionEvaluationFailed), "{:?}", condition);
        assert_eq!(codec.decode(&[0, 2, 3]), Err(DecodeError::ExpressionEvaluationFailed), "{:?}", condition);
    }
}

#[test]
fn repeated_field_with_an_unbound_condition_fails_even_for_a_count_of_zero() {
    let source = "
items:
  - id: n
    type: u8
  - id: list
    type: u8
    if: false && later
    repeat: Count(n)
  - id: later
    type: u8
";
    let codec = codec_of(source);
    assert_eq!(codec.decode(&[0, 7]), Err(DecodeError::ExpressionEvaluationFailed));
    assert_eq!(codec.decode(&[2, 7]), Err(DecodeError::ExpressionEvaluationFailed));
    let bound = codec_of(&source.replace("false && later", "false && n > 0"));
    assert_eq!(
        bound.decode(&[0, 7]),
        Ok((Datum::Record(vec![u8_of(0), Datum::List(vec![]), u8_of(7)]), 2))
    );
}

#[test]
fn nesting_limit_is_the_choice_of_the_caller() {
    let tree = "types:\n  Node:\n    - id: n\n      type: u8\n    - id: kids\n      type: Node\n      repeat: Count(n)\nitems:\n  - id: root\n    type: Node\n";
    let mut chain = vec![1u8; 95];
    chain.push(0);
    let standard = Codec::new(parse_schema(tree).unwrap()).unwrap();
    assert_eq!(standard.nesting_limit(), DEFAULT_NESTING);
    assert_eq!(standard.decode(&chain), Err(DecodeError::NestingTooDeep));
    let deep = Codec::with_nesting_limit(parse_schema(tree).unwrap(), 96).unwrap();
    assert_eq!(deep.nesting_limit(), 96);
    let (value, consumed) = deep.decode(&chain).unwrap();
    assert_eq!(consumed, 96);
    assert_eq!(deep.encode(&value, 96).unwrap(), chain);
    let tight = Codec::with_nesting_limit(parse_schema(tree).unwrap(), 95).unwrap();
    assert_eq!(tight.decode(&chain), Err(DecodeError::NestingTooDeep));
    let flat = Codec::with_nesting_limit(parse_schema("items:\n  - id: a\n    type: u8\n").unwrap(), 0).unwrap();
    assert_eq!(flat.decode(&[7]), Ok((Datum::Record(vec![u8_of(7)]), 1)));
    assert!(Codec::with_nesting_limit(parse_schema(tree).unwrap(), 0).unwrap().decode(&[0]).is_err());
}

#[test]
fn inputs_that_differ_only_in_reserved_gaps_decode_alike() {
    let source = "
types:
  Pair:
    - id: on
      type: u8
    - id: extra
      type: u16
      if: on > 0
      advance_if_false: true
items:
  - id: n
    type: u8
  - id: wide
    type: u32
    if: n > 1
    advance_if_false: true
  - id: pairs
    type: Pair
    repeat: Count(n)
  - id: last
    type: Pair
    if: n > 1
    advance_if_false: true
";
    let codec = codec_of(source);
    let first = [1u8, 0xaa, 0xbb, 0xcc, 0xdd, 0, 0x11, 0x22, 0x33, 0x44, 0x55];
    let second = [1u8, 0x01, 0x02, 0x03, 0x04, 0, 0xfe, 0xfd, 0xfc, 0xfb, 0xfa];
    let (value, consumed) = codec.decode(&first).unwrap();
    assert_eq!(consumed, 11);
    assert_eq!(codec.decode(&second).unwrap(), codec.decode(&first).unwrap());
    assert_eq!(codec.encode(&value, 11).unwrap(), vec![1, 0, 0, 0, 0, 0, 0, 0, 0, 0, 0]);
    let third = [1u8, 0xaa, 0xbb, 0xcc, 0xdd, 1, 0x11, 0x22, 0x33, 0x44, 0x55];
    assert_ne!(codec.decode(&third), Ok((value, 11)));
}
