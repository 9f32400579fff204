//! Reading a schema from a YAML document.
//!
//! A document is a mapping with the keys `meta` (optional; `endian: be` or
//! `endian: le`), `types` (optional; type name to list of fields) and
//! `items` (the list of fields of the root record). A field is a mapping
//! with the keys `id`, `type` and, optionally, `if`, `repeat` and
//! `advance_if_false`. The order of the fields in the document is the order
//! of the fields in the schema. A document that misses a required key, holds
//! a value of the wrong kind under a key, spells an expression or a
//! repetition that cannot be read, or names a type that it does not declare
//! gives no schema at all.
//!
//! The YAML itself is the work of the `serde_yaml` crate, and the test
//! whether an id or a type name is an identifier that of `syn`. What they
//! hand back is named here by functions without a body; everything that
//! is made of it is stated over those names and proved.

use crate::codec::check_schema;
use crate::grammar::{check_name, is_name, parse_expression, parsed_expression};
use crate::primitive::{Endianness, PrimitiveType};
use crate::schema::{
    field_views, schema_valid, type_views, CompositeType, CompositeTypeView, Condition, ConditionView, DataType,
    DataTypeView, Field, FieldView, Repetition, RepetitionView, Schema, SchemaError, SchemaView,
};
use crate::text::{same_text, text_chars};
use vstd::prelude::*;
use vstd::string::*;

verus! {

/// `serde_yaml::Value`: a node of a YAML document. Nothing is known of
/// what is inside a node but what the functions below name.
#[verifier::external_type_specification]
#[verifier::external_body]
pub struct ExYamlValue(serde_yaml::Value);

/// `serde_yaml::Mapping`: the keys and values of a mapping node.
#[verifier::external_type_specification]
#[verifier::external_body]
pub struct ExYamlMapping(serde_yaml::Mapping);

/// The document that `serde_yaml::from_str` reads from a text, if it reads
/// one.
pub uninterp spec fn yaml_document(text: Seq<char>) -> Option<serde_yaml::Value>;

/// What `serde_yaml::Value::get` finds under a text key: the value stored
/// under it when the node is a mapping that holds the key.
pub uninterp spec fn yaml_member(node: serde_yaml::Value, key: Seq<char>) -> Option<serde_yaml::Value>;

/// What `serde_yaml::Value::as_str` gives: the text of a string node.
pub uninterp spec fn yaml_text(node: serde_yaml::Value) -> Option<Seq<char>>;

/// What `serde_yaml::Value::as_bool` gives: the truth value of a boolean
/// node.
pub uninterp spec fn yaml_flag(node: serde_yaml::Value) -> Option<bool>;

/// What `serde_yaml::Value::as_sequence` gives: the elements of a sequence
/// node, in order.
pub uninterp spec fn yaml_items(node: serde_yaml::Value) -> Option<Seq<serde_yaml::Value>>;

/// What `serde_yaml::Value::as_mapping` gives: the mapping of a mapping
/// node.
pub uninterp spec fn yaml_mapping(node: serde_yaml::Value) -> Option<serde_yaml::Mapping>;

/// What `serde_yaml::Mapping::iter` walks: the keys with their values, in
/// the order in which they were inserted.
pub uninterp spec fn mapping_entries(mapping: serde_yaml::Mapping) -> Seq<(serde_yaml::Value, serde_yaml::Value)>;

/// Whether `syn::parse_str::<syn::Ident>` accepts a text. It accepts an
/// identifier that is no keyword, also a raw one, and blanks and comments
/// around it.
pub uninterp spec fn rust_ident(text: Seq<char>) -> bool;

/// `serde_yaml::from_str` for a `serde_yaml::Value`. The document read, or
/// the failure to read one, is a function of the text alone.
#[verifier::external_body]
fn read_document(text: &str) -> (r: Option<serde_yaml::Value>)
    ensures
        r == yaml_document(text@),
{
    serde_yaml::from_str::<serde_yaml::Value>(text).ok()
}

/// `serde_yaml::Value::get` with a text key.
#[verifier::external_body]
fn node_member<'a>(node: &'a serde_yaml::Value, key: &str) -> (r: Option<&'a serde_yaml::Value>)
    ensures
        match r {
            Some(member) => yaml_member(*node, key@) == Some(*member),
            None => yaml_member(*node, key@).is_none(),
        },
{
    node.get(key)
}

/// `serde_yaml::Value::as_str`.
#[verifier::external_body]
fn node_text(node: &serde_yaml::Value) -> (r: Option<&str>)
    ensures
        match r {
            Some(text) => yaml_text(*node) == Some(text@),
            None => yaml_text(*node).is_none(),
        },
{
    node.as_str()
}

/// `serde_yaml::Value::as_bool`.
#[verifier::external_body]
fn node_flag(node: &serde_yaml::Value) -> (r: Option<bool>)
    ensures
        r == yaml_flag(*node),
{
    node.as_bool()
}

/// `serde_yaml::Value::as_sequence`.
#[verifier::external_body]
fn node_items(node: &serde_yaml::Value) -> (r: Option<&Vec<serde_yaml::Value>>)
    ensures
        match r {
            Some(items) => yaml_items(*node) == Some(items@),
            None => yaml_items(*node).is_none(),
        },
{
    node.as_sequence()
}

/// `serde_yaml::Value::as_mapping`.
#[verifier::external_body]
fn node_mapping(node: &serde_yaml::Value) -> (r: Option<&serde_yaml::Mapping>)
    ensures
        match r {
            Some(mapping) => yaml_mapping(*node) == Some(*mapping),
            None => yaml_mapping(*node).is_none(),
        },
{
    node.as_mapping()
}

/// `serde_yaml::Mapping::iter`, collected: the keys with their values, in
/// the order of the mapping.
#[verifier::external_body]
fn entries_of(mapping: &serde_yaml::Mapping) -> (r: Vec<(&serde_yaml::Value, &serde_yaml::Value)>)
    ensures
        r@.len() == mapping_entries(*mapping).len(),
        forall|i: int|
            0 <= i < r@.len() ==> mapping_entries(*mapping)[i] == (*(#[trigger] r@[i]).0, *r@[i].1),
{
    mapping.iter().collect()
}

/// `syn::parse_str::<syn::Ident>`, asked only whether it succeeds.
#[verifier::external_body]
fn is_rust_ident(text: &str) -> (r: bool)
    ensures
        r == rust_ident(text@),
{
    syn::parse_str::<syn::Ident>(text).is_ok()
}

/// The text stored under a key of a node.
pub open spec fn member_text(node: serde_yaml::Value, key: Seq<char>) -> Option<Seq<char>> {
    match yaml_member(node, key) {
        Some(member) => yaml_text(member),
        None => None,
    }
}

/// The byte order that the text under `endian` asks for: big for `be`,
/// little for anything else and for no text at all.
pub open spec fn endianness_of(endian: Option<Seq<char>>) -> Endianness {
    if endian == Some("be"@) {
        Endianness::Big
    } else {
        Endianness::Little
    }
}

/// The byte order that a `meta` node asks for: that of the text under its
/// key `endian`, and little without a node.
pub open spec fn meta_endianness(meta: Option<serde_yaml::Value>) -> Endianness {
    match meta {
        Some(node) => endianness_of(member_text(node, "endian"@)),
        None => Endianness::Little,
    }
}

/// The scalar kind of a type name.
pub open spec fn primitive_named(name: Seq<char>) -> Option<PrimitiveType> {
    if name == "u8"@ {
        Some(PrimitiveType::U8)
    } else if name == "u16"@ {
        Some(PrimitiveType::U16)
    } else if name == "u32"@ {
        Some(PrimitiveType::U32)
    } else if name == "u64"@ {
        Some(PrimitiveType::U64)
    } else if name == "i8"@ {
        Some(PrimitiveType::I8)
    } else if name == "i16"@ {
        Some(PrimitiveType::I16)
    } else if name == "i32"@ {
        Some(PrimitiveType::I32)
    } else if name == "i64"@ {
        Some(PrimitiveType::I64)
    } else if name == "f32"@ {
        Some(PrimitiveType::F32)
    } else if name == "f64"@ {
        Some(PrimitiveType::F64)
    } else if name == "bool"@ {
        Some(PrimitiveType::Bool)
    } else {
        None
    }
}

/// The type that a type name stands for: a scalar kind, or the composite
/// type of that name when the name is an identifier, which `ident` says,
/// and a name of the grammar. Any other text names no type.
pub open spec fn data_type_named(name: Seq<char>, ident: bool) -> Option<DataTypeView> {
    match primitive_named(name) {
        Some(kind) => Some(DataTypeView::Primitive(kind)),
        None => if ident && is_name(name) {
            Some(DataTypeView::Composite(name))
        } else {
            None
        },
    }
}

/// The argument of a repetition: what stands between `Count(` at the
/// start of the text and `)` at its end.
pub open spec fn repetition_argument(text: Seq<char>) -> Option<Seq<char>> {
    if text.len() >= 7 && text.subrange(0, 6) == "Count("@ && text[text.len() - 1] == ')' {
        Some(text.subrange(6, text.len() - 1))
    } else {
        None
    }
}

/// The repetition that a text spells: `Count(`, an expression, `)`, and
/// nothing before or after.
pub open spec fn repetition_of(text: Seq<char>) -> Option<RepetitionView> {
    match repetition_argument(text) {
        Some(argument) => match parsed_expression(argument) {
            Some(count) => Some(RepetitionView::Count(count)),
            None => None,
        },
        None => None,
    }
}

/// The condition that the text under `if` spells, with the policy for an
/// absent value: none without a text, and a refusal when the text is no
/// expression.
pub open spec fn condition_from(text: Option<Seq<char>>, advance_if_false: bool) -> Option<Option<ConditionView>> {
    match text {
        Some(text) => match parsed_expression(text) {
            Some(expression) => Some(Some(ConditionView { expression, advance_if_false })),
            None => None,
        },
        None => Some(None),
    }
}

/// The repetition that the text under `repeat` spells: none without a
/// text, and a refusal when the text is no repetition.
pub open spec fn repetition_from(text: Option<Seq<char>>) -> Option<Option<RepetitionView>> {
    match text {
        Some(text) => match repetition_of(text) {
            Some(repetition) => Some(Some(repetition)),
            None => None,
        },
        None => Some(None),
    }
}

/// The field that the parts of a descriptor make: the texts under `id`,
/// `type`, `if` and `repeat`, the truth value under `advance_if_false`, and
/// whether the id and the type name are identifiers.
///
/// There is a field when the id is an identifier and a name that an
/// expression can spell, the type name is that of a scalar kind or such a
/// name too, and the texts under `if` and `repeat`, if any, spell an
/// expression and a repetition.
pub open spec fn field_from(
    id: Seq<char>,
    kind_name: Seq<char>,
    condition: Option<Seq<char>>,
    repeat: Option<Seq<char>>,
    advance_if_false: bool,
    id_is_ident: bool,
    kind_is_ident: bool,
) -> Option<FieldView> {
    match (
        data_type_named(kind_name, kind_is_ident),
        condition_from(condition, advance_if_false),
        repetition_from(repeat),
    ) {
        (Some(data_type), Some(condition), Some(repetition)) => if id_is_ident && is_name(id) {
            Some(FieldView { id, data_type, condition, repetition })
        } else {
            None
        },
        _ => None,
    }
}

/// What stands under an optional key that asks for a text: nothing when
/// the key is absent, the text when it holds one, and a refusal when it
/// holds anything else.
pub open spec fn optional_text(item: serde_yaml::Value, key: Seq<char>) -> Option<Option<Seq<char>>> {
    match yaml_member(item, key) {
        Some(node) => match yaml_text(node) {
            Some(text) => Some(Some(text)),
            None => None,
        },
        None => Some(None),
    }
}

/// Whether an absent value of the field reserves its width: the truth
/// value under `advance_if_false`, `false` without the key, and a refusal
/// when the key holds no truth value.
pub open spec fn advance_of(item: serde_yaml::Value) -> Option<bool> {
    match yaml_member(item, "advance_if_false"@) {
        Some(node) => yaml_flag(node),
        None => Some(false),
    }
}

/// The field that a node describes. A node describes a field when it has
/// an `id` and a `type`, both texts, when what stands under `if` and
/// `repeat`, if anything, is a text, and under `advance_if_false` a truth
/// value, and when those parts make a field.
pub open spec fn field_of(item: serde_yaml::Value) -> Option<FieldView> {
    match (
        member_text(item, "id"@),
        member_text(item, "type"@),
        optional_text(item, "if"@),
        optional_text(item, "repeat"@),
        advance_of(item),
    ) {
        (Some(id), Some(kind_name), Some(condition), Some(repeat), Some(advance_if_false)) => field_from(
            id,
            kind_name,
            condition,
            repeat,
            advance_if_false,
            rust_ident(id),
            rust_ident(kind_name),
        ),
        _ => None,
    }
}

/// The fields that the first `n` nodes describe, in order, if each of them
/// describes one.
pub open spec fn fields_of(items: Seq<serde_yaml::Value>, n: nat) -> Option<Seq<FieldView>>
    decreases n,
{
    if n == 0 {
        Some(Seq::empty())
    } else {
        match (fields_of(items, (n - 1) as nat), field_of(items[n - 1])) {
            (Some(head), Some(field)) => Some(head.push(field)),
            _ => None,
        }
    }
}

/// The fields that a node lists: the node is a sequence, and each of its
/// elements describes a field.
pub open spec fn field_list(node: Option<serde_yaml::Value>) -> Option<Seq<FieldView>> {
    match node {
        Some(list) => match yaml_items(list) {
            Some(items) => fields_of(items, items.len()),
            None => None,
        },
        None => None,
    }
}

/// The composite type that an entry of `types` declares: its key is a
/// text, an identifier and a name of the grammar, its value lists fields.
pub open spec fn type_of_entry(entry: (serde_yaml::Value, serde_yaml::Value)) -> Option<CompositeTypeView> {
    match (yaml_text(entry.0), field_list(Some(entry.1))) {
        (Some(name), Some(fields)) => if rust_ident(name) && is_name(name) {
            Some(CompositeTypeView { name, fields })
        } else {
            None
        },
        _ => None,
    }
}

/// The composite types that the first `n` entries declare, in order.
pub open spec fn types_of(entries: Seq<(serde_yaml::Value, serde_yaml::Value)>, n: nat) -> Option<
    Seq<CompositeTypeView>,
>
    decreases n,
{
    if n == 0 {
        Some(Seq::empty())
    } else {
        match (types_of(entries, (n - 1) as nat), type_of_entry(entries[n - 1])) {
            (Some(head), Some(declared)) => Some(head.push(declared)),
            _ => None,
        }
    }
}

/// The composite types that a `types` node declares: none without a node;
/// with one, the node is a mapping and each entry declares a type.
pub open spec fn declared_types(node: Option<serde_yaml::Value>) -> Option<Seq<CompositeTypeView>> {
    match node {
        Some(types) => match yaml_mapping(types) {
            Some(mapping) => types_of(mapping_entries(mapping), mapping_entries(mapping).len()),
            None => None,
        },
        None => Some(Seq::empty()),
    }
}

/// The schema made of a byte order, the declared types and the root
/// fields, if there are both and the whole is valid.
pub open spec fn assembled(
    endianness: Endianness,
    types: Option<Seq<CompositeTypeView>>,
    items: Option<Seq<FieldView>>,
) -> Option<SchemaView> {
    match (types, items) {
        (Some(types), Some(items)) => if schema_valid(SchemaView { endianness, types, items }) {
            Some(SchemaView { endianness, types, items })
        } else {
            None
        },
        _ => None,
    }
}

/// The schema of a document, if it describes one and that one is valid.
pub open spec fn schema_of(document: serde_yaml::Value) -> Option<SchemaView> {
    assembled(
        meta_endianness(yaml_member(document, "meta"@)),
        declared_types(yaml_member(document, "types"@)),
        field_list(yaml_member(document, "items"@)),
    )
}

/// The model of a list of types that may be missing.
pub open spec fn type_seq(types: Option<Vec<CompositeType>>) -> Option<Seq<CompositeTypeView>> {
    match types {
        Some(v) => Some(type_views(v@)),
        None => None,
    }
}

/// The model of a list of fields that may be missing.
pub open spec fn field_seq(fields: Option<Vec<Field>>) -> Option<Seq<FieldView>> {
    match fields {
        Some(v) => Some(field_views(v@)),
        None => None,
    }
}

/// The model of a borrowed node.
pub open spec fn node_of(node: Option<&serde_yaml::Value>) -> Option<serde_yaml::Value> {
    match node {
        Some(value) => Some(*value),
        None => None,
    }
}

fn text_under<'a>(node: &'a serde_yaml::Value, key: &str) -> (r: Option<&'a str>)
    ensures
        match r {
            Some(text) => member_text(*node, key@) == Some(text@),
            None => member_text(*node, key@).is_none(),
        },
{
    match node_member(node, key) {
        Some(member) => node_text(member),
        None => None,
    }
}

/// The byte order that the text under `endian` asks for.
pub fn endianness_named(endian: Option<&str>) -> (r: Endianness)
    ensures
        r == endianness_of(
            match endian {
                Some(text) => Some(text@),
                None => None,
            },
        ),
{
    match endian {
        Some(text) => if same_text(text, "be") {
            Endianness::Big
        } else {
            Endianness::Little
        },
        None => Endianness::Little,
    }
}

/// Reads the byte order from the `meta` node of a document. Little endian
/// is the default.
pub fn parse_meta(meta: Option<&serde_yaml::Value>) -> (r: Endianness)
    ensures
        r == meta_endianness(node_of(meta)),
{
    match meta {
        Some(node) => endianness_named(text_under(node, "endian")),
        None => Endianness::Little,
    }
}

/// The scalar kind of a type name.
pub fn primitive_by_name(name: &str) -> (r: Option<PrimitiveType>)
    ensures
        r == primitive_named(name@),
{
    if same_text(name, "u8") {
        Some(PrimitiveType::U8)
    } else if same_text(name, "u16") {
        Some(PrimitiveType::U16)
    } else if same_text(name, "u32") {
        Some(PrimitiveType::U32)
    } else if same_text(name, "u64") {
        Some(PrimitiveType::U64)
    } else if same_text(name, "i8") {
        Some(PrimitiveType::I8)
    } else if same_text(name, "i16") {
        Some(PrimitiveType::I16)
    } else if same_text(name, "i32") {
        Some(PrimitiveType::I32)
    } else if same_text(name, "i64") {
        Some(PrimitiveType::I64)
    } else if same_text(name, "f32") {
        Some(PrimitiveType::F32)
    } else if same_text(name, "f64") {
        Some(PrimitiveType::F64)
    } else if same_text(name, "bool") {
        Some(PrimitiveType::Bool)
    } else {
        None
    }
}

/// Reads a repetition from its text, such as `Count(n)`.
pub fn parse_repetition(value: &str) -> (r: Option<Repetition>)
    ensures
        match r {
            Some(repetition) => repetition_of(value@) == Some(repetition@),
            None => repetition_of(value@).is_none(),
        },
{
    let chars = text_chars(value);
    let n = chars.len();
    if n < 7 || chars[n - 1] != ')' || !same_text(value.substring_char(0, 6), "Count(") {
        return None;
    }
    match parse_expression(value.substring_char(6, n - 1)) {
        Some(count) => Some(Repetition::Count(count)),
        None => None,
    }
}

/// The text under an optional key.
fn optional_text_under<'a>(item: &'a serde_yaml::Value, key: &str) -> (r: Option<Option<&'a str>>)
    ensures
        match r {
            Some(Some(text)) => optional_text(*item, key@) == Some(Some(text@)),
            Some(None) => optional_text(*item, key@) == Some(None::<Seq<char>>),
            None => optional_text(*item, key@).is_none(),
        },
{
    match node_member(item, key) {
        Some(node) => match node_text(node) {
            Some(text) => Some(Some(text)),
            None => None,
        },
        None => Some(None),
    }
}

fn advance_flag(item: &serde_yaml::Value) -> (r: Option<bool>)
    ensures
        r == advance_of(*item),
{
    match node_member(item, "advance_if_false") {
        Some(node) => node_flag(node),
        None => Some(false),
    }
}

/// The model of a borrowed text that may be missing.
pub open spec fn text_of(text: Option<&str>) -> Option<Seq<char>> {
    match text {
        Some(t) => Some(t@),
        None => None,
    }
}

/// Makes a field of the parts of a descriptor: the texts under `id`,
/// `type`, `if` and `repeat`, the truth value under `advance_if_false`, and
/// whether the id and the type name are identifiers.
pub fn field_from_parts(
    id: &str,
    kind_name: &str,
    condition: Option<&str>,
    repeat: Option<&str>,
    advance_if_false: bool,
    id_is_ident: bool,
    kind_is_ident: bool,
) -> (r: Option<Field>)
    ensures
        match r {
            Some(field) => field_from(
                id@,
                kind_name@,
                text_of(condition),
                text_of(repeat),
                advance_if_false,
                id_is_ident,
                kind_is_ident,
            ) == Some(field@),
            None => field_from(
                id@,
                kind_name@,
                text_of(condition),
                text_of(repeat),
                advance_if_false,
                id_is_ident,
                kind_is_ident,
            ).is_none(),
        },
{
    let data_type = match primitive_by_name(kind_name) {
        Some(kind) => DataType::Primitive(kind),
        None => {
            if !kind_is_ident || !check_name(kind_name) {
                return None;
            }
            DataType::Composite(String::from_str(kind_name))
        },
    };
    let condition = match condition {
        Some(text) => match parse_expression(text) {
            Some(expression) => Some(Condition { expression, advance_if_false }),
            None => {
                return None;
            },
        },
        None => None,
    };
    let repetition = match repeat {
        Some(text) => match parse_repetition(text) {
            Some(repetition) => Some(repetition),
            None => {
                return None;
            },
        },
        None => None,
    };
    if !id_is_ident || !check_name(id) {
        return None;
    }
    Some(Field { id: String::from_str(id), data_type, condition, repetition })
}

/// Reads one field from its node.
pub fn parse_item(item: &serde_yaml::Value) -> (r: Option<Field>)
    ensures
        match r {
            Some(field) => field_of(*item) == Some(field@),
            None => field_of(*item).is_none(),
        },
{
    let id = match text_under(item, "id") {
        Some(id) => id,
        None => {
            return None;
        },
    };
    let kind_name = match text_under(item, "type") {
        Some(kind_name) => kind_name,
        None => {
            return None;
        },
    };
    let condition = match optional_text_under(item, "if") {
        Some(condition) => condition,
        None => {
            return None;
        },
    };
    let repeat = match optional_text_under(item, "repeat") {
        Some(repeat) => repeat,
        None => {
            return None;
        },
    };
    let advance_if_false = match advance_flag(item) {
        Some(flag) => flag,
        None => {
            return None;
        },
    };
    field_from_parts(
        id,
        kind_name,
        condition,
        repeat,
        advance_if_false,
        is_rust_ident(id),
        is_rust_ident(kind_name),
    )
}

/// Reads a list of fields from its node. The order of the list is kept.
pub fn parse_sequence(item: Option<&serde_yaml::Value>) -> (r: Option<Vec<Field>>)
    ensures
        match r {
            Some(fields) => field_list(node_of(item)) == Some(field_views(fields@)),
            None => field_list(node_of(item)).is_none(),
        },
{
    let items = match item {
        Some(list) => match node_items(list) {
            Some(items) => items,
            None => {
                return None;
            },
        },
        None => {
            return None;
        },
    };
    let mut fields: Vec<Field> = Vec::new();
    let mut i: usize = 0;
    assert(field_views(fields@) =~= Seq::<FieldView>::empty());
    while i < items.len()
        invariant
            i <= items@.len(),
            field_list(node_of(item)) == fields_of(items@, items@.len()),
            fields_of(items@, i as nat) == Some(field_views(fields@)),
        decreases items@.len() - i,
    {
        match parse_item(&items[i]) {
            Some(field) => {
                assert(field_views(fields@.push(field)) =~= field_views(fields@).push(field@));
                fields.push(field);
                i += 1;
            },
            None => {
                proof {
                    lemma_fields_fail(items@, i as nat, items@.len());
                }
                return None;
            },
        }
    }
    Some(fields)
}

/// A node that describes no field leaves every longer list without
/// fields.
proof fn lemma_fields_fail(items: Seq<serde_yaml::Value>, i: nat, n: nat)
    requires
        i < n,
        field_of(items[i as int]) is None,
    ensures
        fields_of(items, n) is None,
    decreases n,
{
    if n > i + 1 {
        lemma_fields_fail(items, i, (n - 1) as nat);
    }
}

/// An entry that declares no type leaves every longer list without types.
proof fn lemma_types_fail(entries: Seq<(serde_yaml::Value, serde_yaml::Value)>, i: nat, n: nat)
    requires
        i < n,
        type_of_entry(entries[i as int]) is None,
    ensures
        types_of(entries, n) is None,
    decreases n,
{
    if n > i + 1 {
        lemma_types_fail(entries, i, (n - 1) as nat);
    }
}

/// Reads the composite types from the `types` node of a document.
pub fn parse_defined_types(item: Option<&serde_yaml::Value>) -> (r: Option<Vec<CompositeType>>)
    ensures
        match r {
            Some(types) => declared_types(node_of(item)) == Some(type_views(types@)),
            None => declared_types(node_of(item)).is_none(),
        },
{
    let mut types: Vec<CompositeType> = Vec::new();
    assert(type_views(types@) =~= Seq::<CompositeTypeView>::empty());
    let mapping = match item {
        Some(node) => match node_mapping(node) {
            Some(mapping) => mapping,
            None => {
                return None;
            },
        },
        None => {
            return Some(types);
        },
    };
    let entries = entries_of(mapping);
    let ghost all = mapping_entries(*mapping);
    let mut i: usize = 0;
    while i < entries.len()
        invariant
            i <= entries@.len(),
            all == mapping_entries(*mapping),
            declared_types(node_of(item)) == types_of(all, all.len()),
            entries@.len() == all.len(),
            forall|j: int| 0 <= j < entries@.len() ==> all[j] == (*(#[trigger] entries@[j]).0, *entries@[j].1),
            types_of(all, i as nat) == Some(type_views(types@)),
        decreases entries@.len() - i,
    {
        let key = entries[i].0;
        let value = entries[i].1;
        assert(all[i as int] == (*key, *value));
        let declared = match node_text(key) {
            Some(name) => if is_rust_ident(name) && check_name(name) {
                match parse_sequence(Some(value)) {
                    Some(fields) => Some(CompositeType { name: String::from_str(name), fields }),
                    None => None,
                }
            } else {
                None
            },
            None => None,
        };
        match declared {
            Some(declared) => {
                assert(type_views(types@.push(declared)) =~= type_views(types@).push(declared@));
                types.push(declared);
                i += 1;
            },
            None => {
                proof {
                    lemma_types_fail(all, i as nat, all.len());
                }
                return None;
            },
        }
    }
    Some(types)
}

/// Puts a schema together from a byte order, the declared types and the
/// root fields, and checks it. Without types or without fields, and when
/// the whole is not valid, the schema is malformed.
pub fn assemble(endianness: Endianness, types: Option<Vec<CompositeType>>, items: Option<Vec<Field>>) -> (r: Result<
    Schema,
    SchemaError,
>)
    ensures
        match r {
            Ok(schema) => assembled(endianness, type_seq(types), field_seq(items)) == Some(schema@),
            Err(e) => assembled(endianness, type_seq(types), field_seq(items)).is_none() && e
                == SchemaError::Malformed,
        },
{
    match (types, items) {
        (Some(types), Some(items)) => {
            let schema = Schema { endianness, types, items };
            match check_schema(&schema) {
                Ok(()) => Ok(schema),
                Err(e) => Err(e),
            }
        },
        _ => Err(SchemaError::Malformed),
    }
}

/// Reads a schema from a document and checks it. A document that is
/// structurally invalid, or that names a type it does not declare, is
/// malformed; no part of it is handed out.
pub fn parse_file(document: &serde_yaml::Value) -> (r: Result<Schema, SchemaError>)
    ensures
        match r {
            Ok(schema) => schema_of(*document) == Some(schema@),
            Err(e) => schema_of(*document).is_none() && e == SchemaError::Malformed,
        },
{
    let endianness = parse_meta(node_member(document, "meta"));
    let types = parse_defined_types(node_member(document, "types"));
    let items = parse_sequence(node_member(document, "items"));
    assemble(endianness, types, items)
}

/// What reading a schema from a document gives once the text was read as
/// YAML: the schema of the document, or the refusal of a text that is no
/// YAML or describes no valid schema.
pub fn schema_from_document(document: Option<serde_yaml::Value>) -> (r: Result<Schema, SchemaError>)
    ensures
        match r {
            Ok(schema) => document matches Some(d) && schema_of(d) == Some(schema@),
            Err(e) => (document matches Some(d) ==> schema_of(d).is_none()) && e == SchemaError::Malformed,
        },
{
    match document {
        Some(d) => parse_file(&d),
        None => Err(SchemaError::Malformed),
    }
}

/// Reads a schema from the text of a YAML document.
pub fn parse_schema(text: &str) -> (r: Result<Schema, SchemaError>)
    ensures
        match r {
            Ok(schema) => yaml_document(text@) matches Some(d) && schema_of(d) == Some(schema@),
            Err(e) => (yaml_document(text@) matches Some(d) ==> schema_of(d).is_none()) && e
                == SchemaError::Malformed,
        },
{
    schema_from_document(read_document(text))
}

} // verus!
