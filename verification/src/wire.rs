//! What a schema prescribes on the wire: the meaning of decoding and of
//! encoding, as functions on byte sequences.
//!
//! A field is read in up to two layers. Its base is a scalar or a record of
//! a composite type. A condition, if the field has one, wraps the base: the
//! base is read only when the condition holds. A repetition, if the field
//! has one, wraps the result: that many elements are read one after the
//! other. Writing follows the stored value instead of the expressions: an
//! optional value is written when it is present, a list element by element.

use crate::datum::DatumView;
use crate::expr::{eval_count, eval_flag, scalar_operand, well_formed, BindingView, Operand};
use crate::primitive::{scalar_at, scalar_to_bytes};
use crate::schema::{context_boundary, fixed_width, type_fields, DataTypeView, FieldView, RepetitionView, SchemaView};
use vstd::prelude::*;

verus! {

/// Why a decode gave no value.
#[derive(Clone, Copy, Debug, PartialEq, Eq, Structural)]
pub enum DecodeError {
    /// The input ended before the bytes of a field did.
    Truncated,
    /// A condition or count named a field that has no value in scope, or
    /// did not evaluate to a truth value or to a count.
    ExpressionEvaluationFailed,
    /// Records were nested more levels deep than the decode allows. The
    /// limit is what keeps a type that contains itself from being followed
    /// without end.
    NestingTooDeep,
}

/// Why an encode gave no bytes.
#[derive(Clone, Copy, Debug, PartialEq, Eq, Structural)]
pub enum EncodeError {
    /// The destination cannot hold the encoded record.
    SinkFailure,
    /// The value does not have the shape of the record it is encoded as.
    ShapeMismatch,
}

/// How many records may be nested inside the root record when the caller
/// names no limit of its own.
pub const DEFAULT_NESTING: usize = 64;

/// What a decoded value contributes to an expression.
pub open spec fn datum_operand(value: DatumView) -> Option<Operand> {
    match value {
        DatumView::Scalar(s) => scalar_operand(s),
        _ => None,
    }
}

/// The binding that a decoded field adds to the scope of the fields after
/// it.
pub open spec fn binding_of(field: FieldView, value: DatumView) -> BindingView {
    BindingView { name: field.id, operand: datum_operand(value) }
}

/// The scope made of the first `values.len()` fields of a record.
pub open spec fn scope_of(fields: Seq<FieldView>, values: Seq<DatumView>) -> Seq<BindingView> {
    Seq::new(values.len(), |i: int| binding_of(fields[i], values[i]))
}

/// A further decoded field adds its binding at the end of the scope.
pub proof fn lemma_scope_of_push(fields: Seq<FieldView>, values: Seq<DatumView>, value: DatumView)
    ensures
        scope_of(fields, values.push(value)) == scope_of(fields, values).push(
            binding_of(fields[values.len() as int], value),
        ),
{
    assert(scope_of(fields, values.push(value)) =~= scope_of(fields, values).push(
        binding_of(fields[values.len() as int], value),
    ));
}

/// The bytes an absent field occupies when it reserves its width: the
/// fixed width of its type, and nothing for a type that has none, which a
/// valid schema does not let reserve anything.
pub open spec fn reserved_width(schema: SchemaView, data_type: DataTypeView) -> nat {
    match fixed_width(schema, data_type) {
        Some(width) => width,
        None => 0,
    }
}

/// `width` zero bytes.
pub open spec fn zeros(width: nat) -> Seq<u8> {
    Seq::new(width, |i: int| 0u8)
}

/// Reads the base of a field at `pos`: a scalar in the byte order of the
/// schema, or the record of a composite type, which sees the shared context
/// `root` and starts with no field of its own in scope.
pub open spec fn decode_base(
    schema: SchemaView,
    data_type: DataTypeView,
    input: Seq<u8>,
    pos: int,
    root: Seq<BindingView>,
    depth: nat,
) -> Result<(DatumView, int), DecodeError>
    decreases depth, 0nat, 0nat,
{
    match data_type {
        DataTypeView::Primitive(kind) => match scalar_at(kind, schema.endianness, input, pos) {
            Some((value, next)) => Ok((DatumView::Scalar(value), next)),
            None => Err(DecodeError::Truncated),
        },
        DataTypeView::Composite(name) => if depth == 0 {
            Err(DecodeError::NestingTooDeep)
        } else {
            let fields = type_fields(schema, name);
            match decode_prefix(schema, fields, fields.len(), input, pos, root, (depth - 1) as nat) {
                Ok((values, next)) => Ok((DatumView::Record(values), next)),
                Err(e) => Err(e),
            }
        },
    }
}

/// Reads one element of a field at `pos`, with its condition applied.
///
/// Without a condition this is the base. With one, the element is an
/// optional value: present, and read as the base, when the condition holds;
/// absent otherwise. An absent element consumes the reserved width of its
/// type, whatever those bytes hold, when the condition says so, and nothing
/// when it does not.
pub open spec fn decode_element(
    schema: SchemaView,
    field: FieldView,
    input: Seq<u8>,
    pos: int,
    local: Seq<BindingView>,
    root: Seq<BindingView>,
    depth: nat,
) -> Result<(DatumView, int), DecodeError>
    decreases depth, 1nat, 0nat,
{
    match field.condition {
        None => decode_base(schema, field.data_type, input, pos, root, depth),
        Some(condition) => match eval_flag(condition.expression, local, root) {
            None => Err(DecodeError::ExpressionEvaluationFailed),
            Some(true) => match decode_base(schema, field.data_type, input, pos, root, depth) {
                Ok((value, next)) => Ok((DatumView::Optional(Some(Box::new(value))), next)),
                Err(e) => Err(e),
            },
            Some(false) => if !condition.advance_if_false {
                Ok((DatumView::Optional(None), pos))
            } else if 0 <= pos && pos + reserved_width(schema, field.data_type) <= input.len() {
                Ok((DatumView::Optional(None), pos + reserved_width(schema, field.data_type)))
            } else {
                Err(DecodeError::Truncated)
            },
        },
    }
}

/// Reads `count` elements of a field one after the other, starting at
/// `pos`. The first failure is the result.
pub open spec fn decode_elements(
    schema: SchemaView,
    field: FieldView,
    count: nat,
    input: Seq<u8>,
    pos: int,
    local: Seq<BindingView>,
    root: Seq<BindingView>,
    depth: nat,
) -> Result<(Seq<DatumView>, int), DecodeError>
    decreases depth, 2nat, count,
{
    if count == 0 {
        Ok((Seq::empty(), pos))
    } else {
        match decode_elements(schema, field, (count - 1) as nat, input, pos, local, root, depth) {
            Err(e) => Err(e),
            Ok((items, mid)) => match decode_element(schema, field, input, mid, local, root, depth) {
                Err(e) => Err(e),
                Ok((value, end)) => Ok((items.push(value), end)),
            },
        }
    }
}

/// Whether the condition of a field, if it has one, is well formed in the
/// scopes of the field.
pub open spec fn condition_well_formed(field: FieldView, local: Seq<BindingView>, root: Seq<BindingView>) -> bool {
    field.condition matches Some(condition) ==> well_formed(condition.expression, local, root)
}

/// Reads a whole field at `pos`, with its repetition applied around its
/// condition. A count or a condition that is not well formed fails the
/// field, whatever the count is.
pub open spec fn decode_field(
    schema: SchemaView,
    field: FieldView,
    input: Seq<u8>,
    pos: int,
    local: Seq<BindingView>,
    root: Seq<BindingView>,
    depth: nat,
) -> Result<(DatumView, int), DecodeError>
    decreases depth, 3nat, 0nat,
{
    match field.repetition {
        None => decode_element(schema, field, input, pos, local, root, depth),
        Some(RepetitionView::Count(count)) => match eval_count(count, local, root) {
            None => Err(DecodeError::ExpressionEvaluationFailed),
            Some(n) => if !condition_well_formed(field, local, root) {
                Err(DecodeError::ExpressionEvaluationFailed)
            } else {
                match decode_elements(schema, field, n as nat, input, pos, local, root, depth) {
                    Ok((items, next)) => Ok((DatumView::List(items), next)),
                    Err(e) => Err(e),
                }
            },
        },
    }
}

/// Reads the first `n` fields of a record that starts at `pos`, in order.
/// Each field sees the fields before it and the shared context `root`. The
/// first failure is the result.
pub open spec fn decode_prefix(
    schema: SchemaView,
    fields: Seq<FieldView>,
    n: nat,
    input: Seq<u8>,
    pos: int,
    root: Seq<BindingView>,
    depth: nat,
) -> Result<(Seq<DatumView>, int), DecodeError>
    decreases depth, 4nat, n,
{
    if n == 0 {
        Ok((Seq::empty(), pos))
    } else {
        match decode_prefix(schema, fields, (n - 1) as nat, input, pos, root, depth) {
            Err(e) => Err(e),
            Ok((values, mid)) => match decode_field(
                schema,
                fields[n - 1],
                input,
                mid,
                scope_of(fields, values),
                root,
                depth,
            ) {
                Err(e) => Err(e),
                Ok((value, end)) => Ok((values.push(value), end)),
            },
        }
    }
}

/// The shared context of a decode of `input`: the leading scalar fields of
/// the root record, as far as the context boundary.
pub open spec fn root_context(schema: SchemaView, input: Seq<u8>, depth: nat) -> Result<
    Seq<BindingView>,
    DecodeError,
> {
    match decode_prefix(
        schema,
        schema.items,
        context_boundary(schema.items),
        input,
        0,
        Seq::empty(),
        depth,
    ) {
        Ok((head, _)) => Ok(scope_of(schema.items, head)),
        Err(e) => Err(e),
    }
}

/// Decoding one root record from the start of `input`, with records
/// nested at most `depth` levels deep inside it: the record and the number
/// of bytes it occupies.
pub open spec fn decode_root(schema: SchemaView, input: Seq<u8>, depth: nat) -> Result<
    (DatumView, int),
    DecodeError,
> {
    match root_context(schema, input, depth) {
        Err(e) => Err(e),
        Ok(root) => match decode_prefix(
            schema,
            schema.items,
            schema.items.len(),
            input,
            0,
            root,
            depth,
        ) {
            Ok((values, end)) => Ok((DatumView::Record(values), end)),
            Err(e) => Err(e),
        },
    }
}

/// Writes the base of a field: a scalar of the field's kind in the byte
/// order of the schema, or a record with one value for each field of the
/// composite type.
pub open spec fn encode_base(schema: SchemaView, data_type: DataTypeView, value: DatumView) -> Result<
    Seq<u8>,
    EncodeError,
>
    decreases value, 0nat,
{
    match data_type {
        DataTypeView::Primitive(kind) => match value {
            DatumView::Scalar(s) => if s.kind() == kind {
                Ok(scalar_to_bytes(s, schema.endianness))
            } else {
                Err(EncodeError::ShapeMismatch)
            },
            _ => Err(EncodeError::ShapeMismatch),
        },
        DataTypeView::Composite(name) => match value {
            DatumView::Record(values) => encode_record(schema, type_fields(schema, name), values),
            _ => Err(EncodeError::ShapeMismatch),
        },
    }
}

/// Writes one element of a field. An element of a conditional field is an
/// optional value: a present one is written as the base; an absent one as
/// zero bytes over the reserved width of its type when the condition
/// reserves it, and as nothing when it does not.
pub open spec fn encode_element(schema: SchemaView, field: FieldView, value: DatumView) -> Result<
    Seq<u8>,
    EncodeError,
>
    decreases value, 1nat,
{
    match field.condition {
        None => encode_base(schema, field.data_type, value),
        Some(condition) => match value {
            DatumView::Optional(Some(inner)) => encode_base(schema, field.data_type, *inner),
            DatumView::Optional(None) => if condition.advance_if_false {
                Ok(zeros(reserved_width(schema, field.data_type)))
            } else {
                Ok(Seq::empty())
            },
            _ => Err(EncodeError::ShapeMismatch),
        },
    }
}

/// Writes the first `n` elements of a list, in order.
pub open spec fn encode_elements(schema: SchemaView, field: FieldView, items: Seq<DatumView>, n: nat) -> Result<
    Seq<u8>,
    EncodeError,
>
    decreases items, n,
{
    if n == 0 {
        Ok(Seq::empty())
    } else if n > items.len() {
        Err(EncodeError::ShapeMismatch)
    } else {
        match encode_elements(schema, field, items, (n - 1) as nat) {
            Err(e) => Err(e),
            Ok(head) => match encode_element(schema, field, items[n - 1]) {
                Err(e) => Err(e),
                Ok(last) => Ok(head + last),
            },
        }
    }
}

/// Writes a whole field. A repeated field is a list, and as many elements
/// are written as the list holds.
pub open spec fn encode_field(schema: SchemaView, field: FieldView, value: DatumView) -> Result<
    Seq<u8>,
    EncodeError,
>
    decreases value, 2nat,
{
    match field.repetition {
        None => encode_element(schema, field, value),
        Some(_) => match value {
            DatumView::List(items) => encode_elements(schema, field, items, items.len()),
            _ => Err(EncodeError::ShapeMismatch),
        },
    }
}

/// Writes a record: one value for each field, in declared order.
pub open spec fn encode_record(schema: SchemaView, fields: Seq<FieldView>, values: Seq<DatumView>) -> Result<
    Seq<u8>,
    EncodeError,
>
    decreases values, values.len() + 1,
{
    if values.len() == fields.len() {
        encode_prefix(schema, fields, values, values.len())
    } else {
        Err(EncodeError::ShapeMismatch)
    }
}

/// Writes the first `n` fields of a record, in order.
pub open spec fn encode_prefix(schema: SchemaView, fields: Seq<FieldView>, values: Seq<DatumView>, n: nat) -> Result<
    Seq<u8>,
    EncodeError,
>
    decreases values, n,
{
    if n == 0 {
        Ok(Seq::empty())
    } else if n > values.len() {
        Err(EncodeError::ShapeMismatch)
    } else {
        match encode_prefix(schema, fields, values, (n - 1) as nat) {
            Err(e) => Err(e),
            Ok(head) => match encode_field(schema, fields[n - 1], values[n - 1]) {
                Err(e) => Err(e),
                Ok(last) => Ok(head + last),
            },
        }
    }
}

/// Encoding one root record: the bytes of its fields in declared order.
pub open spec fn encode_root(schema: SchemaView, value: DatumView) -> Result<Seq<u8>, EncodeError> {
    match value {
        DatumView::Record(values) => encode_record(schema, schema.items, values),
        _ => Err(EncodeError::ShapeMismatch),
    }
}

} // verus!
