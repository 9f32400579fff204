//! The schema model: what a parsed layout description holds.

use crate::expr::{Expr, ExprView};
use crate::primitive::{Endianness, PrimitiveType};
use vstd::prelude::*;

verus! {

/// Why a layout description was refused.
#[derive(Clone, Copy, Debug, PartialEq, Eq, Structural)]
pub enum SchemaError {
    /// The description is structurally invalid or refers to a type that it
    /// does not declare.
    Malformed,
}

/// A gate on the presence of a field.
#[derive(Debug, PartialEq, Eq)]
pub struct Condition {
    /// The field is present when this is true.
    pub expression: Expr,
    /// Whether an absent field still occupies its byte width on the wire.
    pub advance_if_false: bool,
}

pub struct ConditionView {
    pub expression: ExprView,
    pub advance_if_false: bool,
}

impl View for Condition {
    type V = ConditionView;

    open spec fn view(&self) -> ConditionView {
        ConditionView { expression: self.expression@, advance_if_false: self.advance_if_false }
    }
}

/// How often a field occurs.
#[derive(Debug, PartialEq, Eq)]
pub enum Repetition {
    /// As many elements as the expression evaluates to.
    Count(Expr),
}

pub enum RepetitionView {
    Count(ExprView),
}

impl View for Repetition {
    type V = RepetitionView;

    open spec fn view(&self) -> RepetitionView {
        match self {
            Repetition::Count(e) => RepetitionView::Count(e@),
        }
    }
}

/// The type of one element of a field.
#[derive(Debug, PartialEq, Eq)]
pub enum DataType {
    Primitive(PrimitiveType),
    /// A composite type, by the name it is declared under.
    Composite(String),
}

pub enum DataTypeView {
    Primitive(PrimitiveType),
    Composite(Seq<char>),
}

impl View for DataType {
    type V = DataTypeView;

    open spec fn view(&self) -> DataTypeView {
        match self {
            DataType::Primitive(kind) => DataTypeView::Primitive(*kind),
            DataType::Composite(name) => DataTypeView::Composite(name@),
        }
    }
}

/// One slot of a record. The order of the fields of a record is the order
/// of their bytes on the wire.
#[derive(Debug, PartialEq, Eq)]
pub struct Field {
    pub id: String,
    pub data_type: DataType,
    pub condition: Option<Condition>,
    pub repetition: Option<Repetition>,
}

pub struct FieldView {
    pub id: Seq<char>,
    pub data_type: DataTypeView,
    pub condition: Option<ConditionView>,
    pub repetition: Option<RepetitionView>,
}

impl View for Field {
    type V = FieldView;

    open spec fn view(&self) -> FieldView {
        FieldView {
            id: self.id@,
            data_type: self.data_type@,
            condition: match self.condition {
                Some(c) => Some(c@),
                None => None,
            },
            repetition: match self.repetition {
                Some(r) => Some(r@),
                None => None,
            },
        }
    }
}

/// The models of a sequence of fields, in order.
pub open spec fn field_views(fields: Seq<Field>) -> Seq<FieldView> {
    Seq::new(fields.len(), |i: int| fields[i]@)
}

/// A named record layout that fields refer to by name.
#[derive(Debug, PartialEq, Eq)]
pub struct CompositeType {
    pub name: String,
    pub fields: Vec<Field>,
}

pub struct CompositeTypeView {
    pub name: Seq<char>,
    pub fields: Seq<FieldView>,
}

impl View for CompositeType {
    type V = CompositeTypeView;

    open spec fn view(&self) -> CompositeTypeView {
        CompositeTypeView { name: self.name@, fields: field_views(self.fields@) }
    }
}

/// The models of a sequence of composite types, in order.
pub open spec fn type_views(types: Seq<CompositeType>) -> Seq<CompositeTypeView> {
    Seq::new(types.len(), |i: int| types[i]@)
}

/// A parsed layout description.
#[derive(Debug, PartialEq, Eq)]
pub struct Schema {
    pub endianness: Endianness,
    pub types: Vec<CompositeType>,
    /// The fields of the root record.
    pub items: Vec<Field>,
}

pub struct SchemaView {
    pub endianness: Endianness,
    pub types: Seq<CompositeTypeView>,
    pub items: Seq<FieldView>,
}

impl View for Schema {
    type V = SchemaView;

    open spec fn view(&self) -> SchemaView {
        SchemaView {
            endianness: self.endianness,
            types: type_views(self.types@),
            items: field_views(self.items@),
        }
    }
}

/// The index of the last type declared under `name`.
pub open spec fn find_type(types: Seq<CompositeTypeView>, name: Seq<char>) -> Option<int>
    decreases types.len(),
{
    if types.len() == 0 {
        None
    } else if types.last().name == name {
        Some(types.len() - 1)
    } else {
        find_type(types.drop_last(), name)
    }
}

/// The fields of the type declared under `name`; none when no type is.
pub open spec fn type_fields(schema: SchemaView, name: Seq<char>) -> Seq<FieldView> {
    match find_type(schema.types, name) {
        Some(i) => schema.types[i].fields,
        None => Seq::empty(),
    }
}

/// A field can belong to the shared context when it is a single,
/// unconditional scalar.
pub open spec fn is_context_field(field: FieldView) -> bool {
    &&& field.data_type is Primitive
    &&& field.condition is None
    &&& field.repetition is None
}

/// The length of the longest prefix of `fields` made of context fields.
pub open spec fn context_boundary(fields: Seq<FieldView>) -> nat
    decreases fields.len(),
{
    if fields.len() == 0 || !is_context_field(fields[0]) {
        0
    } else {
        1 + context_boundary(fields.drop_first())
    }
}

/// The fixed width of a type on the wire, if it has one: the width of a
/// scalar kind; for a composite type, the widths of its fields added up.
/// Composite types are followed `fuel` levels deep.
pub open spec fn type_width(schema: SchemaView, data_type: DataTypeView, fuel: nat) -> Option<nat>
    decreases fuel, 0nat, 0nat,
{
    match data_type {
        DataTypeView::Primitive(kind) => Some(kind.width()),
        DataTypeView::Composite(name) => if fuel == 0 {
            None
        } else {
            match find_type(schema.types, name) {
                Some(i) => record_width(
                    schema,
                    schema.types[i].fields,
                    schema.types[i].fields.len(),
                    (fuel - 1) as nat,
                ),
                None => None,
            }
        },
    }
}

/// The fixed width of a field, if it has one. A repeated field has none,
/// nor has a conditional field that consumes nothing when it is absent. A
/// conditional field that reserves its width when it is absent is as wide
/// as its type, present or not.
pub open spec fn field_width(schema: SchemaView, field: FieldView, fuel: nat) -> Option<nat>
    decreases fuel, 1nat, 0nat,
{
    if field.repetition is Some || (field.condition matches Some(c) && !c.advance_if_false) {
        None
    } else {
        type_width(schema, field.data_type, fuel)
    }
}

/// The fixed width of the first `n` of `fields`, if each of them has one
/// and the sum can be addressed.
pub open spec fn record_width(schema: SchemaView, fields: Seq<FieldView>, n: nat, fuel: nat) -> Option<nat>
    decreases fuel, 2nat, n,
{
    if n == 0 {
        Some(0)
    } else if n > fields.len() {
        None
    } else {
        match (record_width(schema, fields, (n - 1) as nat, fuel), field_width(schema, fields[n - 1], fuel)) {
            (Some(head), Some(last)) => if head + last <= usize::MAX {
                Some(head + last)
            } else {
                None
            },
            _ => None,
        }
    }
}

/// The fixed width of a type in `schema`, if it has one. A type has one
/// when it is a scalar kind, or a composite type whose fields all have one.
/// A composite type that contains itself has none; any other is found
/// within as many levels as the schema declares types.
pub open spec fn fixed_width(schema: SchemaView, data_type: DataTypeView) -> Option<nat> {
    type_width(schema, data_type, schema.types.len())
}

/// A field is well-formed in `schema` when its composite type is declared
/// there, and when it reserves space for an absent value only if its type
/// has a fixed width.
pub open spec fn field_valid(schema: SchemaView, field: FieldView) -> bool {
    &&& field.data_type matches DataTypeView::Composite(name) ==> find_type(schema.types, name) is Some
    &&& (field.condition matches Some(c) && c.advance_if_false) ==> fixed_width(schema, field.data_type) is Some
}

pub open spec fn fields_valid(schema: SchemaView, fields: Seq<FieldView>) -> bool {
    forall|i: int| 0 <= i < fields.len() ==> field_valid(schema, #[trigger] fields[i])
}

/// Every field of the root record and of every declared type is
/// well-formed.
pub open spec fn schema_valid(schema: SchemaView) -> bool {
    &&& fields_valid(schema, schema.items)
    &&& forall|t: int| 0 <= t < schema.types.len() ==> fields_valid(schema, (#[trigger] schema.types[t]).fields)
}

/// `context_boundary` is the one index that ends a prefix of context fields
/// and is either the end of the record or a field that cannot belong to the
/// context.
pub proof fn lemma_context_boundary(fields: Seq<FieldView>)
    ensures
        context_boundary(fields) <= fields.len(),
        forall|i: int| 0 <= i < context_boundary(fields) ==> is_context_field(#[trigger] fields[i]),
        context_boundary(fields) < fields.len() ==> !is_context_field(fields[context_boundary(fields) as int]),
    decreases fields.len(),
{
    if fields.len() > 0 && is_context_field(fields[0]) {
        let rest = fields.drop_first();
        lemma_context_boundary(rest);
        assert forall|i: int| 0 <= i < context_boundary(fields) implies is_context_field(#[trigger] fields[i]) by {
            if i > 0 {
                assert(fields[i] == rest[i - 1]);
            }
        }
        if context_boundary(fields) < fields.len() {
            assert(fields[context_boundary(fields) as int] == rest[context_boundary(rest) as int]);
        }
    }
}

/// Any index with the two defining properties is the context boundary.
pub proof fn lemma_context_boundary_unique(fields: Seq<FieldView>, k: int)
    requires
        0 <= k <= fields.len(),
        forall|i: int| 0 <= i < k ==> is_context_field(#[trigger] fields[i]),
        k < fields.len() ==> !is_context_field(fields[k]),
    ensures
        context_boundary(fields) == k,
{
    lemma_context_boundary(fields);
    let b = context_boundary(fields) as int;
    if b < k {
        assert(is_context_field(fields[b]));
    } else if k < b {
        assert(is_context_field(fields[k]));
    }
}

/// Finds the index of the last type declared under `name`.
pub fn find_type_index(types: &Vec<CompositeType>, name: &String) -> (r: Option<usize>)
    ensures
        match r {
            Some(i) => find_type(type_views(types@), name@) == Some(i as int) && i < types.len(),
            None => find_type(type_views(types@), name@).is_none(),
        },
{
    let ghost whole = type_views(types@);
    let mut i: usize = types.len();
    assert(whole.take(i as int) =~= whole);
    while i > 0
        invariant
            i <= types.len(),
            whole == type_views(types@),
            find_type(whole, name@) == find_type(whole.take(i as int), name@),
        decreases i,
    {
        i -= 1;
        proof {
            assert(whole.take(i + 1).drop_last() =~= whole.take(i as int));
            assert(whole.take(i + 1).last() == types@[i as int]@);
        }
        if types[i].name == *name {
            return Some(i);
        }
    }
    None
}

/// The fixed width of a type, composite types followed `fuel` levels
/// deep.
pub fn width_of_type(schema: &Schema, data_type: &DataType, fuel: usize) -> (r: Option<usize>)
    ensures
        match r {
            Some(w) => type_width(schema@, data_type@, fuel as nat) == Some(w as nat),
            None => type_width(schema@, data_type@, fuel as nat).is_none(),
        },
    decreases fuel, 0nat,
{
    match data_type {
        DataType::Primitive(kind) => Some(kind.byte_width()),
        DataType::Composite(name) => {
            if fuel == 0 {
                return None;
            }
            match find_type_index(&schema.types, name) {
                Some(t) => {
                    assert(schema@.types[t as int] == schema.types@[t as int]@);
                    width_of_record(schema, &schema.types[t].fields, fuel - 1)
                },
                None => None,
            }
        },
    }
}

/// The fixed width of a field.
pub fn width_of_field(schema: &Schema, field: &Field, fuel: usize) -> (r: Option<usize>)
    ensures
        match r {
            Some(w) => field_width(schema@, field@, fuel as nat) == Some(w as nat),
            None => field_width(schema@, field@, fuel as nat).is_none(),
        },
    decreases fuel, 1nat,
{
    let reserves = match &field.condition {
        Some(condition) => condition.advance_if_false,
        None => true,
    };
    if field.repetition.is_some() || !reserves {
        None
    } else {
        width_of_type(schema, &field.data_type, fuel)
    }
}

/// The fixed width of a record with the given fields.
pub fn width_of_record(schema: &Schema, fields: &Vec<Field>, fuel: usize) -> (r: Option<usize>)
    ensures
        match r {
            Some(w) => record_width(schema@, field_views(fields@), fields@.len(), fuel as nat) == Some(w as nat),
            None => record_width(schema@, field_views(fields@), fields@.len(), fuel as nat).is_none(),
        },
    decreases fuel, 2nat,
{
    let mut total: usize = 0;
    let mut i: usize = 0;
    while i < fields.len()
        invariant
            i <= fields@.len(),
            record_width(schema@, field_views(fields@), i as nat, fuel as nat) == Some(total as nat),
        decreases fields@.len() - i,
    {
        assert(field_views(fields@)[i as int] == fields@[i as int]@);
        let next = match width_of_field(schema, &fields[i], fuel) {
            Some(w) => total.checked_add(w),
            None => None,
        };
        match next {
            Some(sum) => {
                total = sum;
                i += 1;
            },
            None => {
                proof {
                    lemma_no_record_width(schema@, field_views(fields@), i as nat, fields@.len(), fuel as nat);
                }
                return None;
            },
        }
    }
    Some(total)
}

/// A field that makes a record too wide, or has no width, leaves every
/// longer run of fields without a width.
proof fn lemma_no_record_width(schema: SchemaView, fields: Seq<FieldView>, i: nat, n: nat, fuel: nat)
    requires
        i < n <= fields.len(),
        record_width(schema, fields, i + 1, fuel) is None,
    ensures
        record_width(schema, fields, n, fuel) is None,
    decreases n,
{
    if n > i + 1 {
        lemma_no_record_width(schema, fields, i, (n - 1) as nat, fuel);
    }
}

/// The fixed width of a type in `schema`.
pub fn width_of(schema: &Schema, data_type: &DataType) -> (r: Option<usize>)
    ensures
        match r {
            Some(w) => fixed_width(schema@, data_type@) == Some(w as nat),
            None => fixed_width(schema@, data_type@).is_none(),
        },
{
    assert(schema@.types.len() == schema.types@.len());
    width_of_type(schema, data_type, schema.types.len())
}

/// Whether `field` can belong to the shared context.
pub fn field_is_context(field: &Field) -> (r: bool)
    ensures
        r == is_context_field(field@),
{
    match (&field.data_type, &field.condition, &field.repetition) {
        (DataType::Primitive(_), None, None) => true,
        _ => false,
    }
}

/// The context resolver: the index that ends the shared context of a root
/// record. The fields before it are all single, unconditional scalars; the
/// field at it, if there is one, is composite, conditional or repeated.
pub fn context_end(items: &Vec<Field>) -> (k: usize)
    ensures
        k == context_boundary(field_views(items@)),
        k <= items.len(),
        forall|i: int| 0 <= i < k ==> is_context_field(#[trigger] items@[i]@),
        k < items.len() ==> !is_context_field(items@[k as int]@),
{
    let mut k: usize = 0;
    while k < items.len() && field_is_context(&items[k])
        invariant
            k <= items.len(),
            forall|i: int| 0 <= i < k ==> is_context_field(#[trigger] items@[i]@),
        decreases items.len() - k,
    {
        k += 1;
    }
    proof {
        let views = field_views(items@);
        assert forall|i: int| 0 <= i < k implies is_context_field(#[trigger] views[i]) by {
            assert(is_context_field(items@[i]@));
        }
        lemma_context_boundary_unique(views, k as int);
    }
    k
}

} // verus!
