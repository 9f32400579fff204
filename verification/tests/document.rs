use binformat::codec::Codec;
use binformat::datum::Datum;
use binformat::document::{
    assemble, endianness_named, field_from_parts, parse_defined_types, parse_file, parse_item, parse_meta, parse_repetition, parse_schema, parse_sequence,
    primitive_by_name,
};
use binformat::expr::{BinaryOp, Expr};
use binformat::primitive::{Endianness, PrimitiveType, Scalar};
use binformat::schema::{width_of, Condition, DataType, Field, Repetition, SchemaError};
use binformat::wire::DecodeError;
use serde_yaml::{Mapping, Value};

fn text(s: &str) -> Value {
    Value::String(s.to_owned())
}

fn field_node(pairs: &[(&str, Value)]) -> Value {
    let mut mapping = Mapping::new();
    for (key, value) in pairs {
        mapping.insert(text(key), value.clone());
    }
    Value::Mapping(mapping)
}

const SAMPLE: &str = "
meta:
  endian: le
items:
  - id: version
    type: u16
  - id: count
    type: u8
  - id: flag
    type: bool
    if: count > 0
    advance_if_false: true
  - id: items
    type: u32
    repeat: Count(count)
";

#[test]
fn parse_meta_test() {
    assert_eq!(parse_meta(None), Endianness::Little);

    let le_value = {
        let mut le_value = Mapping::new();
        le_value.insert(
            Value::String("endian".to_owned()),
            Value::String("le".to_owned()),
        );
        Value::Mapping(le_value)
    };
    assert_eq!(parse_meta(Some(&le_value)), Endianness::Little);

    let be_value = {
        let mut be_value = Mapping::new();
        be_value.insert(
            Value::String("endian".to_owned()),
            Value::String("be".to_owned()),
        );
        Value::Mapping(be_value)
    };
    assert_eq!(parse_meta(Some(&be_value)), Endianness::Big);

    let other_value = {
        let mut other_value = Mapping::new();
        other_value.insert(
            Value::String("endian".to_owned()),
            Value::String("other".to_owned()),
        );
        Value::Mapping(other_value)
    };
    assert_eq!(parse_meta(Some(&other_value)), Endianness::Little);
}

#[test]
fn meta_that_is_no_mapping_means_little_endian() {
    assert_eq!(parse_meta(Some(&text("be"))), Endianness::Little);
    assert_eq!(parse_meta(Some(&field_node(&[("endian", Value::Bool(true))]))), Endianness::Little);
}

#[test]
fn primitive_names_are_the_eleven_scalar_kinds() {
    assert_eq!(primitive_by_name("u8"), Some(PrimitiveType::U8));
    assert_eq!(primitive_by_name("u16"), Some(PrimitiveType::U16));
    assert_eq!(primitive_by_name("u32"), Some(PrimitiveType::U32));
    assert_eq!(primitive_by_name("u64"), Some(PrimitiveType::U64));
    assert_eq!(primitive_by_name("i8"), Some(PrimitiveType::I8));
    assert_eq!(primitive_by_name("i16"), Some(PrimitiveType::I16));
    assert_eq!(primitive_by_name("i32"), Some(PrimitiveType::I32));
    assert_eq!(primitive_by_name("i64"), Some(PrimitiveType::I64));
    assert_eq!(primitive_by_name("f32"), Some(PrimitiveType::F32));
    assert_eq!(primitive_by_name("f64"), Some(PrimitiveType::F64));
    assert_eq!(primitive_by_name("bool"), Some(PrimitiveType::Bool));
    assert_eq!(primitive_by_name("u128"), None);
    assert_eq!(primitive_by_name("Header"), None);
    assert_eq!(primitive_by_name(""), None);
}

#[test]
fn repetition_is_count_with_an_expression() {
    assert_eq!(parse_repetition("Count(n)"), Some(Repetition::Count(Expr::Local("n".to_string()))));
    assert_eq!(
        parse_repetition("Count(n + 1)"),
        Some(Repetition::Count(Expr::Binary(
            BinaryOp::Add,
            Box::new(Expr::Local("n".to_string())),
            Box::new(Expr::Number(1)),
        )))
    );
    assert_eq!(parse_repetition("Count((n))"), Some(Repetition::Count(Expr::Local("n".to_string()))));
    assert_eq!(parse_repetition("Count( 3 )"), Some(Repetition::Count(Expr::Number(3))));
}

#[test]
fn unknown_or_broken_repetition_is_refused() {
    assert_eq!(parse_repetition("Until(n)"), None);
    assert_eq!(parse_repetition("count(n)"), None);
    assert_eq!(parse_repetition("Count"), None);
    assert_eq!(parse_repetition("Count()"), None);
    assert_eq!(parse_repetition("Count(n +)"), None);
    assert_eq!(parse_repetition("Count(3) and more"), None);
    assert_eq!(parse_repetition("Count(3"), None);
    assert_eq!(parse_repetition("Count(3))"), None);
    assert_eq!(parse_repetition(" Count(3)"), None);
    assert_eq!(parse_repetition("Count(3) "), None);
    assert_eq!(parse_repetition("Count (3)"), None);
    assert_eq!(parse_repetition(""), None);
}

#[test]
fn item_with_id_and_type_is_a_plain_field() {
    let node = field_node(&[("id", text("version")), ("type", text("u16"))]);
    assert_eq!(
        parse_item(&node),
        Some(Field {
            id: "version".to_string(),
            data_type: DataType::Primitive(PrimitiveType::U16),
            condition: None,
            repetition: None,
        })
    );
}

#[test]
fn item_with_condition_and_repetition_keeps_both() {
    let node = field_node(&[
        ("id", text("extra")),
        ("type", text("Header")),
        ("if", text("count > 0")),
        ("repeat", text("Count(count)")),
        ("advance_if_false", Value::Bool(true)),
    ]);
    let count_positive =
        Expr::Binary(BinaryOp::Gt, Box::new(Expr::Local("count".to_string())), Box::new(Expr::Number(0)));
    assert_eq!(
        parse_item(&node),
        Some(Field {
            id: "extra".to_string(),
            data_type: DataType::Composite("Header".to_string()),
            condition: Some(Condition { expression: count_positive, advance_if_false: true }),
            repetition: Some(Repetition::Count(Expr::Local("count".to_string()))),
        })
    );
}

#[test]
fn advance_if_false_defaults_to_false() {
    let node = field_node(&[("id", text("a")), ("type", text("u8")), ("if", text("true"))]);
    let field = parse_item(&node).unwrap();
    assert_eq!(field.condition, Some(Condition { expression: Expr::Truth(true), advance_if_false: false }));
    let node = field_node(&[
        ("id", text("a")),
        ("type", text("u8")),
        ("if", text("true")),
        ("advance_if_false", text("yes")),
    ]);
    assert_eq!(parse_item(&node), None);
}

#[test]
fn optional_keys_of_the_wrong_kind_are_refused() {
    let node = field_node(&[("id", text("a")), ("type", text("u8")), ("if", Value::Bool(true))]);
    assert_eq!(parse_item(&node), None);
    let node = field_node(&[("id", text("a")), ("type", text("u8")), ("repeat", Value::Bool(true))]);
    assert_eq!(parse_item(&node), None);
    let node = field_node(&[("id", text("a")), ("type", text("u8")), ("advance_if_false", Value::Null)]);
    assert_eq!(parse_item(&node), None);
    let node = field_node(&[("id", text("a")), ("type", text("u8")), ("advance_if_false", Value::Bool(true))]);
    assert!(parse_item(&node).is_some());
    assert_eq!(parse_schema("items:\n  - id: a\n    type: u8\n    if: true\n"), Err(SchemaError::Malformed));
    assert!(parse_schema("items:\n  - id: a\n    type: u8\n    if: \"true\"\n").is_ok());
}

#[test]
fn item_without_id_or_type_is_refused() {
    assert_eq!(parse_item(&field_node(&[("type", text("u8"))])), None);
    assert_eq!(parse_item(&field_node(&[("id", text("a"))])), None);
    assert_eq!(parse_item(&field_node(&[("id", Value::Bool(true)), ("type", text("u8"))])), None);
    assert_eq!(parse_item(&text("a: u8")), None);
    assert_eq!(parse_item(&Value::Null), None);
}

#[test]
fn item_whose_id_is_no_identifier_is_refused() {
    assert_eq!(parse_item(&field_node(&[("id", text("two words")), ("type", text("u8"))])), None);
    assert_eq!(parse_item(&field_node(&[("id", text("9lives")), ("type", text("u8"))])), None);
    assert_eq!(parse_item(&field_node(&[("id", text("")), ("type", text("u8"))])), None);
    assert_eq!(parse_item(&field_node(&[("id", text("match")), ("type", text("u8"))])), None);
    assert!(parse_item(&field_node(&[("id", text("matches")), ("type", text("u8"))])).is_some());
}

#[test]
fn item_with_unparsable_expression_is_refused() {
    assert_eq!(parse_item(&field_node(&[("id", text("a")), ("type", text("u8")), ("if", text("count >"))])), None);
    assert_eq!(
        parse_item(&field_node(&[("id", text("a")), ("type", text("u8")), ("repeat", text("Twice(2)"))])),
        None
    );
}

#[test]
fn sequence_keeps_the_order_of_the_document() {
    let list = Value::Sequence(vec![
        field_node(&[("id", text("c")), ("type", text("u8"))]),
        field_node(&[("id", text("a")), ("type", text("u16"))]),
        field_node(&[("id", text("b")), ("type", text("bool"))]),
    ]);
    let fields = parse_sequence(Some(&list)).unwrap();
    let ids: Vec<&str> = fields.iter().map(|f| f.id.as_str()).collect();
    assert_eq!(ids, vec!["c", "a", "b"]);
    assert_eq!(parse_sequence(Some(&Value::Sequence(vec![]))), Some(vec![]));
}

#[test]
fn sequence_with_a_bad_item_is_refused_as_a_whole() {
    let list = Value::Sequence(vec![
        field_node(&[("id", text("a")), ("type", text("u8"))]),
        field_node(&[("id", text("b"))]),
    ]);
    assert_eq!(parse_sequence(Some(&list)), None);
    assert_eq!(parse_sequence(None), None);
    assert_eq!(parse_sequence(Some(&text("nothing"))), None);
}

#[test]
fn defined_types_come_in_the_order_of_the_mapping() {
    let mut mapping = Mapping::new();
    mapping.insert(text("Zed"), Value::Sequence(vec![field_node(&[("id", text("a")), ("type", text("u8"))])]));
    mapping.insert(text("Alpha"), Value::Sequence(vec![]));
    let types = parse_defined_types(Some(&Value::Mapping(mapping))).unwrap();
    assert_eq!(types.len(), 2);
    assert_eq!(types[0].name, "Zed");
    assert_eq!(types[0].fields.len(), 1);
    assert_eq!(types[1].name, "Alpha");
    assert_eq!(parse_defined_types(None), Some(vec![]));
}

#[test]
fn defined_types_with_a_bad_entry_are_refused() {
    assert_eq!(parse_defined_types(Some(&Value::Sequence(vec![]))), None);
    let mut mapping = Mapping::new();
    mapping.insert(text("not a name"), Value::Sequence(vec![]));
    assert_eq!(parse_defined_types(Some(&Value::Mapping(mapping))), None);
    let mut mapping = Mapping::new();
    mapping.insert(text("Header"), text("u8"));
    assert_eq!(parse_defined_types(Some(&Value::Mapping(mapping))), None);
    let mut mapping = Mapping::new();
    mapping.insert(Value::Bool(true), Value::Sequence(vec![]));
    assert_eq!(parse_defined_types(Some(&Value::Mapping(mapping))), None);
}

#[test]
fn schema_from_text_has_byte_order_types_and_items() {
    let schema = parse_schema(
        "
meta:
  endian: be
types:
  Point:
    - id: x
      type: i16
    - id: y
      type: i16
items:
  - id: n
    type: u8
  - id: points
    type: Point
    repeat: Count(n)
",
    )
    .unwrap();
    assert_eq!(schema.endianness, Endianness::Big);
    assert_eq!(schema.types.len(), 1);
    assert_eq!(schema.types[0].name, "Point");
    assert_eq!(schema.items.len(), 2);
    assert_eq!(schema.items[1].data_type, DataType::Composite("Point".to_string()));
}

#[test]
fn schema_without_meta_is_little_endian() {
    let schema = parse_schema("items:\n  - id: a\n    type: u8\n").unwrap();
    assert_eq!(schema.endianness, Endianness::Little);
    assert!(schema.types.is_empty());
}

#[test]
fn malformed_documents_give_no_schema() {
    assert_eq!(parse_schema("meta:\n  endian: le\n"), Err(SchemaError::Malformed));
    assert_eq!(parse_schema("items: 3\n"), Err(SchemaError::Malformed));
    assert_eq!(parse_schema("items:\n  - id: a\n"), Err(SchemaError::Malformed));
    assert_eq!(parse_schema("items:\n  - id: a\n    type: u8\n    if: a >\n"), Err(SchemaError::Malformed));
    assert_eq!(parse_schema("items:\n  - id: a\n    type: u8\n    repeat: Some(2)\n"), Err(SchemaError::Malformed));
    assert_eq!(parse_schema("types: 7\nitems: []\n"), Err(SchemaError::Malformed));
    assert_eq!(parse_schema("- a\n- b\n"), Err(SchemaError::Malformed));
    assert_eq!(parse_schema("items: [unclosed\n"), Err(SchemaError::Malformed));
}

#[test]
fn undeclared_type_is_malformed() {
    assert_eq!(parse_schema("items:\n  - id: a\n    type: Missing\n"), Err(SchemaError::Malformed));
    assert_eq!(
        parse_schema("types:\n  Inner:\n    - id: a\n      type: Missing\nitems: []\n"),
        Err(SchemaError::Malformed)
    );
}

#[test]
fn reserved_space_for_a_type_without_a_fixed_width_is_malformed() {
    let source = "
types:
  Inner:
    - id: a
      type: u8
    - id: more
      type: u8
      repeat: Count(a)
items:
  - id: n
    type: u8
  - id: inner
    type: Inner
    if: n > 0
    advance_if_false: true
";
    assert_eq!(parse_schema(source), Err(SchemaError::Malformed));
    assert!(parse_schema(&source.replace("advance_if_false: true", "advance_if_false: false")).is_ok());
    let optional = "
types:
  Inner:
    - id: a
      type: u8
    - id: b
      type: u8
      if: a > 0
items:
  - id: inner
    type: Inner
    if: false
    advance_if_false: true
";
    assert_eq!(parse_schema(optional), Err(SchemaError::Malformed));
    let nested = "
types:
  Tree:
    - id: child
      type: Tree
      if: false
      advance_if_false: true
items: []
";
    assert_eq!(parse_schema(nested), Err(SchemaError::Malformed));
}

#[test]
fn absent_composite_value_reserves_the_width_of_its_fields() {
    let source = "
types:
  Point:
    - id: x
      type: u16
    - id: y
      type: u16
  Shape:
    - id: kind
      type: u8
    - id: at
      type: Point
    - id: filled
      type: bool
      if: kind > 0
      advance_if_false: true
items:
  - id: n
    type: u8
  - id: shape
    type: Shape
    if: n > 0
    advance_if_false: true
  - id: tail
    type: u8
";
    let codec = Codec::new(parse_schema(source).unwrap()).unwrap();
    let shape = DataType::Composite("Shape".to_string());
    assert_eq!(width_of(codec.schema(), &shape), Some(6));
    assert_eq!(width_of(codec.schema(), &DataType::Composite("Point".to_string())), Some(4));
    assert_eq!(width_of(codec.schema(), &DataType::Primitive(PrimitiveType::U64)), Some(8));
    assert_eq!(width_of(codec.schema(), &DataType::Composite("Nothing".to_string())), None);

    let absent = [0, 0xaa, 0xbb, 0xcc, 0xdd, 0xee, 0xff, 9];
    let (value, consumed) = codec.decode(&absent).unwrap();
    assert_eq!(consumed, 8);
    assert_eq!(
        value,
        Datum::Record(vec![
            Datum::Scalar(Scalar::U8(0)),
            Datum::Optional(None),
            Datum::Scalar(Scalar::U8(9)),
        ])
    );
    assert_eq!(codec.encode(&value, 8).unwrap(), vec![0, 0, 0, 0, 0, 0, 0, 9]);
    assert_eq!(codec.decode(&[0, 1, 2, 3, 4, 5, 6]), Err(DecodeError::Truncated));

    let present = [1, 0, 1, 0, 2, 0, 0x55, 9];
    let (value, consumed) = codec.decode(&present).unwrap();
    assert_eq!(consumed, 8);
    assert_eq!(codec.encode(&value, 8).unwrap(), vec![1, 0, 1, 0, 2, 0, 0, 9]);
}

#[test]
fn type_that_is_no_type_name_gives_no_field() {
    let item = |kind: &str| field_node(&[("id", text("a")), ("type", text(kind))]);
    assert_eq!(parse_item(&item("")), None);
    assert_eq!(parse_item(&item("two words")), None);
    assert_eq!(parse_item(&item(" Header")), None);
    assert_eq!(parse_item(&item("Header ")), None);
    assert_eq!(parse_item(&item("r#Header")), None);
    assert_eq!(parse_item(&item("9lives")), None);
    assert_eq!(parse_item(&item("struct")), None);
    assert_eq!(parse_item(&item("u8")).unwrap().data_type, DataType::Primitive(PrimitiveType::U8));
    assert_eq!(parse_item(&item("Header")).unwrap().data_type, DataType::Composite("Header".to_string()));
}

#[test]
fn id_that_no_expression_can_name_gives_no_field() {
    let item = |id: &str| field_node(&[("id", text(id)), ("type", text("u8"))]);
    for id in ["", " a", "a ", "r#type", "type", "grün", "_root", "a b", "1a"] {
        assert_eq!(parse_item(&item(id)), None, "{:?}", id);
    }
    assert_eq!(parse_item(&item("a_1")).unwrap().id, "a_1");
}

#[test]
fn field_is_made_of_the_parts_of_a_descriptor() {
    let field = field_from_parts("n", "u16", Some("a > 1"), Some("Count(a)"), true, true, true).unwrap();
    assert_eq!(field.id, "n");
    assert_eq!(field.data_type, DataType::Primitive(PrimitiveType::U16));
    assert_eq!(
        field.condition,
        Some(Condition {
            expression: Expr::Binary(
                BinaryOp::Gt,
                Box::new(Expr::Local("a".to_string())),
                Box::new(Expr::Number(1)),
            ),
            advance_if_false: true,
        })
    );
    assert_eq!(field.repetition, Some(Repetition::Count(Expr::Local("a".to_string()))));
    let bare = field_from_parts("n", "Inner", None, None, true, true, true).unwrap();
    assert_eq!(bare.data_type, DataType::Composite("Inner".to_string()));
    assert_eq!(bare.condition, None);
    assert_eq!(bare.repetition, None);
    assert_eq!(field_from_parts("n", "u16", None, None, false, true, false).unwrap().id, "n");
    assert_eq!(field_from_parts("n", "Inner", None, None, false, true, false), None);
    assert_eq!(field_from_parts("n", "u16", None, None, false, false, true), None);
    assert_eq!(field_from_parts("n n", "u16", None, None, false, true, true), None);
    assert_eq!(field_from_parts("n", "u16", Some("a >"), None, false, true, true), None);
    assert_eq!(field_from_parts("n", "u16", None, Some("Until(a)"), false, true, true), None);
}

#[test]
fn schema_is_assembled_from_its_parts_and_checked() {
    let field = |kind: &str| field_from_parts("a", kind, None, None, false, true, true).unwrap();
    let schema = assemble(Endianness::Big, Some(vec![]), Some(vec![field("u8")])).unwrap();
    assert_eq!(schema.endianness, Endianness::Big);
    assert_eq!(schema.items.len(), 1);
    assert_eq!(assemble(Endianness::Big, None, Some(vec![field("u8")])), Err(SchemaError::Malformed));
    assert_eq!(assemble(Endianness::Big, Some(vec![]), None), Err(SchemaError::Malformed));
    assert_eq!(assemble(Endianness::Big, Some(vec![]), Some(vec![field("Missing")])), Err(SchemaError::Malformed));
    assert_eq!(endianness_named(Some("be")), Endianness::Big);
    assert_eq!(endianness_named(Some("le")), Endianness::Little);
    assert_eq!(endianness_named(Some("BE")), Endianness::Little);
    assert_eq!(endianness_named(None), Endianness::Little);
}

#[test]
fn parse_file_reads_a_built_document() {
    let document = field_node(&[
        ("meta", field_node(&[("endian", text("be"))])),
        ("items", Value::Sequence(vec![field_node(&[("id", text("a")), ("type", text("u32"))])])),
    ]);
    let schema = parse_file(&document).unwrap();
    assert_eq!(schema.endianness, Endianness::Big);
    assert_eq!(schema.items.len(), 1);
    assert_eq!(parse_file(&Value::Null), Err(SchemaError::Malformed));
}

#[test]
fn sample_document_decodes_present_flag_and_three_items() {
    let codec = Codec::new(parse_schema(SAMPLE).unwrap()).unwrap();
    let input = [0x02, 0x00, 0x03, 0x01, 0x05, 0, 0, 0, 0x06, 0, 0, 0, 0x07, 0, 0, 0];
    let (value, consumed) = codec.decode(&input).unwrap();
    assert_eq!(consumed, 16);
    assert_eq!(
        value,
        Datum::Record(vec![
            Datum::Scalar(Scalar::U16(2)),
            Datum::Scalar(Scalar::U8(3)),
            Datum::Optional(Some(Box::new(Datum::Scalar(Scalar::Bool(true))))),
            Datum::List(vec![
                Datum::Scalar(Scalar::U32(5)),
                Datum::Scalar(Scalar::U32(6)),
                Datum::Scalar(Scalar::U32(7)),
            ]),
        ])
    );
    assert_eq!(codec.encode(&value, usize::MAX).unwrap(), input.to_vec());
}

#[test]
fn sample_document_decodes_absent_flag_and_no_items() {
    let codec = Codec::new(parse_schema(SAMPLE).unwrap()).unwrap();
    let input = [0x02, 0x00, 0x00, 0x00, 0x00, 0x00];
    let (value, consumed) = codec.decode(&input).unwrap();
    assert_eq!(consumed, 4);
    assert_eq!(
        value,
        Datum::Record(vec![
            Datum::Scalar(Scalar::U16(2)),
            Datum::Scalar(Scalar::U8(0)),
            Datum::Optional(None),
            Datum::List(vec![]),
        ])
    );
}
