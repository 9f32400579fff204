//! The codec of a schema: decoding bytes into records and encoding records
//! into bytes.

use crate::datum::{datum_views, lemma_datum_views_push, Datum, DatumView};
use crate::expr::{
    evaluate_count, evaluate_flag, kind_in, lemma_scope_view_push, operand_of_scalar, scope_view, Binding, BindingView,
};
use crate::laws::{
    lemma_consumed_within_input, lemma_context_ignores_scope, lemma_elements_fail, lemma_prefix_fail,
    lemma_prefix_len,
};
use crate::primitive::{read_scalar, scalar_bytes};
use crate::schema::{
    context_boundary, context_end, field_valid, field_views, fields_valid, find_type_index, schema_valid,
    type_fields, type_views, width_of, DataType, Field, FieldView, Repetition, Schema, SchemaError, SchemaView,
};
use crate::wire::{
    binding_of, decode_base, decode_element, decode_elements, decode_field, decode_prefix, decode_root,
    encode_base, encode_element, encode_elements, encode_field, encode_prefix, encode_record, encode_root,
    lemma_scope_of_push,
    reserved_width, root_context, scope_of, zeros, DecodeError, EncodeError, DEFAULT_NESTING,
};
use vstd::prelude::*;

verus! {

/// The model of the outcome of reading one value.
pub open spec fn decoded_view(r: Result<(Datum, usize), DecodeError>) -> Result<(DatumView, int), DecodeError> {
    match r {
        Ok((value, next)) => Ok((value@, next as int)),
        Err(e) => Err(e),
    }
}

/// The model of the outcome of reading several values.
pub open spec fn decoded_views(r: Result<(Vec<Datum>, usize), DecodeError>) -> Result<
    (Seq<DatumView>, int),
    DecodeError,
> {
    match r {
        Ok((values, next)) => Ok((datum_views(values@), next as int)),
        Err(e) => Err(e),
    }
}

/// What a write did to its destination: on success the destination grew by
/// exactly the bytes that `expected` gives; on failure `expected` is that
/// failure, and the destination holds what it held before.
pub open spec fn wrote(
    r: Result<(), EncodeError>,
    before: Seq<u8>,
    after: Seq<u8>,
    expected: Result<Seq<u8>, EncodeError>,
) -> bool {
    match r {
        Ok(()) => expected matches Ok(bytes) && after == before + bytes,
        Err(e) => expected == Err::<Seq<u8>, EncodeError>(e) && after == before,
    }
}

/// The fields of the composite type `name`, or no fields when the schema
/// declares no such type.
fn fields_of<'a>(schema: &'a Schema, name: &String, none: &'a Vec<Field>) -> (fields: &'a Vec<Field>)
    requires
        none@.len() == 0,
    ensures
        field_views(fields@) == type_fields(schema@, name@),
{
    match find_type_index(&schema.types, name) {
        Some(t) => {
            assert(type_views(schema.types@)[t as int] == schema.types@[t as int]@);
            &schema.types[t].fields
        },
        None => {
            assert(field_views(none@) =~= Seq::<FieldView>::empty());
            none
        },
    }
}

/// The binding that a decoded field adds to the scope.
fn binding_for(field: &Field, value: &Datum) -> (b: Binding)
    ensures
        b@ == binding_of(field@, value@),
{
    let operand = match value {
        Datum::Scalar(s) => operand_of_scalar(*s),
        _ => None,
    };
    Binding { name: field.id.clone(), operand }
}

/// The number of bytes an absent element of this type reserves.
fn reserved(schema: &Schema, data_type: &DataType) -> (w: usize)
    ensures
        w == reserved_width(schema@, data_type@),
{
    match width_of(schema, data_type) {
        Some(width) => width,
        None => 0,
    }
}

/// Reads the base of a field at `pos`: a scalar, or the record of a
/// composite type.
pub fn read_base(
    schema: &Schema,
    data_type: &DataType,
    input: &[u8],
    pos: usize,
    root: &Vec<Binding>,
    depth: usize,
) -> (r: Result<(Datum, usize), DecodeError>)
    ensures
        decoded_view(r) == decode_base(schema@, data_type@, input@, pos as int, scope_view(root@), depth as nat),
    decreases depth, 0nat, 0nat,
{
    match data_type {
        DataType::Primitive(kind) => match read_scalar(*kind, schema.endianness, input, pos) {
            Some((value, next)) => Ok((Datum::Scalar(value), next)),
            None => Err(DecodeError::Truncated),
        },
        DataType::Composite(name) => {
            if depth == 0 {
                return Err(DecodeError::NestingTooDeep);
            }
            let none: Vec<Field> = Vec::new();
            let fields = fields_of(schema, name, &none);
            match read_fields(schema, fields, input, pos, root, depth - 1) {
                Ok((values, next)) => Ok((Datum::Record(values), next)),
                Err(e) => Err(e),
            }
        },
    }
}

/// Reads one element of a field at `pos`, with its condition applied.
pub fn read_element(
    schema: &Schema,
    field: &Field,
    input: &[u8],
    pos: usize,
    local: &Vec<Binding>,
    root: &Vec<Binding>,
    depth: usize,
) -> (r: Result<(Datum, usize), DecodeError>)
    ensures
        decoded_view(r) == decode_element(
            schema@,
            field@,
            input@,
            pos as int,
            scope_view(local@),
            scope_view(root@),
            depth as nat,
        ),
    decreases depth, 1nat, 0nat,
{
    match &field.condition {
        None => read_base(schema, &field.data_type, input, pos, root, depth),
        Some(condition) => match evaluate_flag(&condition.expression, local, root) {
            None => Err(DecodeError::ExpressionEvaluationFailed),
            Some(true) => match read_base(schema, &field.data_type, input, pos, root, depth) {
                Ok((value, next)) => Ok((Datum::Optional(Some(Box::new(value))), next)),
                Err(e) => Err(e),
            },
            Some(false) => {
                if !condition.advance_if_false {
                    return Ok((Datum::Optional(None), pos));
                }
                let width = reserved(schema, &field.data_type);
                if pos > input.len() || input.len() - pos < width {
                    Err(DecodeError::Truncated)
                } else {
                    Ok((Datum::Optional(None), pos + width))
                }
            },
        },
    }
}

/// Reads `count` elements of a field one after the other.
pub fn read_elements(
    schema: &Schema,
    field: &Field,
    count: u64,
    input: &[u8],
    pos: usize,
    local: &Vec<Binding>,
    root: &Vec<Binding>,
    depth: usize,
) -> (r: Result<(Vec<Datum>, usize), DecodeError>)
    ensures
        decoded_views(r) == decode_elements(
            schema@,
            field@,
            count as nat,
            input@,
            pos as int,
            scope_view(local@),
            scope_view(root@),
            depth as nat,
        ),
    decreases depth, 2nat, 0nat,
{
    let mut items: Vec<Datum> = Vec::new();
    let mut at: usize = pos;
    let mut done: u64 = 0;
    assert(datum_views(items@) =~= Seq::<DatumView>::empty());
    while done < count
        invariant
            done <= count,
            decode_elements(
                schema@,
                field@,
                done as nat,
                input@,
                pos as int,
                scope_view(local@),
                scope_view(root@),
                depth as nat,
            ) == Ok::<(Seq<DatumView>, int), DecodeError>((datum_views(items@), at as int)),
        decreases count - done,
    {
        match read_element(schema, field, input, at, local, root, depth) {
            Ok((value, next)) => {
                proof {
                    lemma_datum_views_push(items@, value);
                }
                items.push(value);
                at = next;
                done += 1;
            },
            Err(e) => {
                proof {
                    lemma_elements_fail(
                        schema@,
                        field@,
                        done as nat,
                        count as nat,
                        input@,
                        pos as int,
                        scope_view(local@),
                        scope_view(root@),
                        depth as nat,
                    );
                }
                return Err(e);
            },
        }
    }
    Ok((items, at))
}

/// Reads a whole field at `pos`: its elements, as many as its count says,
/// each with the condition of the field applied.
pub fn read_field(
    schema: &Schema,
    field: &Field,
    input: &[u8],
    pos: usize,
    local: &Vec<Binding>,
    root: &Vec<Binding>,
    depth: usize,
) -> (r: Result<(Datum, usize), DecodeError>)
    ensures
        decoded_view(r) == decode_field(
            schema@,
            field@,
            input@,
            pos as int,
            scope_view(local@),
            scope_view(root@),
            depth as nat,
        ),
    decreases depth, 3nat, 0nat,
{
    match &field.repetition {
        None => read_element(schema, field, input, pos, local, root, depth),
        Some(Repetition::Count(count)) => match evaluate_count(count, local, root) {
            None => Err(DecodeError::ExpressionEvaluationFailed),
            Some(n) => {
                let resolved = match &field.condition {
                    Some(condition) => kind_in(&condition.expression, local, root).is_some(),
                    None => true,
                };
                if !resolved {
                    return Err(DecodeError::ExpressionEvaluationFailed);
                }
                match read_elements(schema, field, n, input, pos, local, root, depth) {
                    Ok((items, next)) => Ok((Datum::List(items), next)),
                    Err(e) => Err(e),
                }
            },
        },
    }
}

/// Reads the fields `from..to` of a record whose bytes start at `start`,
/// given the values of the fields before `from`, the scope they form, and
/// the offset `pos` they end at.
fn read_span(
    schema: &Schema,
    fields: &Vec<Field>,
    from: usize,
    to: usize,
    values: &mut Vec<Datum>,
    local: &mut Vec<Binding>,
    input: &[u8],
    pos: usize,
    root: &Vec<Binding>,
    depth: usize,
    Ghost(start): Ghost<int>,
) -> (r: Result<usize, DecodeError>)
    requires
        from <= to <= fields@.len(),
        decode_prefix(
            schema@,
            field_views(fields@),
            from as nat,
            input@,
            start,
            scope_view(root@),
            depth as nat,
        ) == Ok::<(Seq<DatumView>, int), DecodeError>((datum_views(old(values)@), pos as int)),
        scope_view(old(local)@) == scope_of(field_views(fields@), datum_views(old(values)@)),
    ensures
        match r {
            Ok(end) => {
                &&& decode_prefix(
                    schema@,
                    field_views(fields@),
                    to as nat,
                    input@,
                    start,
                    scope_view(root@),
                    depth as nat,
                ) == Ok::<(Seq<DatumView>, int), DecodeError>((datum_views(final(values)@), end as int))
                &&& scope_view(final(local)@) == scope_of(field_views(fields@), datum_views(final(values)@))
            },
            Err(e) => decode_prefix(
                schema@,
                field_views(fields@),
                to as nat,
                input@,
                start,
                scope_view(root@),
                depth as nat,
            ) == Err::<(Seq<DatumView>, int), DecodeError>(e),
        },
    decreases depth, 4nat, 0nat,
{
    let mut at: usize = pos;
    let mut i: usize = from;
    while i < to
        invariant
            from <= i <= to <= fields@.len(),
            decode_prefix(
                schema@,
                field_views(fields@),
                i as nat,
                input@,
                start,
                scope_view(root@),
                depth as nat,
            ) == Ok::<(Seq<DatumView>, int), DecodeError>((datum_views(values@), at as int)),
            scope_view(local@) == scope_of(field_views(fields@), datum_views(values@)),
        decreases to - i,
    {
        proof {
            lemma_prefix_len(schema@, field_views(fields@), i as nat, input@, start, scope_view(root@), depth as nat);
        }
        match read_field(schema, &fields[i], input, at, local, root, depth) {
            Ok((value, next)) => {
                let binding = binding_for(&fields[i], &value);
                proof {
                    lemma_datum_views_push(values@, value);
                    lemma_scope_view_push(local@, binding);
                    lemma_scope_of_push(field_views(fields@), datum_views(values@), value@);
                }
                local.push(binding);
                values.push(value);
                at = next;
                i += 1;
            },
            Err(e) => {
                proof {
                    lemma_prefix_fail(
                        schema@,
                        field_views(fields@),
                        i as nat,
                        to as nat,
                        input@,
                        start,
                        scope_view(root@),
                        depth as nat,
                    );
                }
                return Err(e);
            },
        }
    }
    Ok(at)
}

/// Reads all the fields of a record that starts at `pos`, in order.
pub fn read_fields(
    schema: &Schema,
    fields: &Vec<Field>,
    input: &[u8],
    pos: usize,
    root: &Vec<Binding>,
    depth: usize,
) -> (r: Result<(Vec<Datum>, usize), DecodeError>)
    ensures
        decoded_views(r) == decode_prefix(
            schema@,
            field_views(fields@),
            fields@.len(),
            input@,
            pos as int,
            scope_view(root@),
            depth as nat,
        ),
    decreases depth, 5nat, 0nat,
{
    let mut values: Vec<Datum> = Vec::new();
    let mut local: Vec<Binding> = Vec::new();
    proof {
        assert(datum_views(values@) =~= Seq::<DatumView>::empty());
        assert(scope_view(local@) =~= scope_of(field_views(fields@), datum_views(values@)));
    }
    match read_span(schema, fields, 0, fields.len(), &mut values, &mut local, input, pos, root, depth, Ghost(pos as int)) {
        Ok(end) => Ok((values, end)),
        Err(e) => Err(e),
    }
}

/// Writes the base of a field: a scalar, or the record of a composite type.
pub fn write_base(schema: &Schema, data_type: &DataType, value: &Datum, out: &mut Vec<u8>) -> (r: Result<
    (),
    EncodeError,
>)
    ensures
        wrote(r, old(out)@, final(out)@, encode_base(schema@, data_type@, value@)),
    decreases value@, 0nat,
{
    match data_type {
        DataType::Primitive(kind) => match value {
            Datum::Scalar(s) => {
                if s.primitive_type() != *kind {
                    return Err(EncodeError::ShapeMismatch);
                }
                let mut bytes = scalar_bytes(*s, schema.endianness);
                out.append(&mut bytes);
                Ok(())
            },
            _ => Err(EncodeError::ShapeMismatch),
        },
        DataType::Composite(name) => match value {
            Datum::Record(values) => {
                let none: Vec<Field> = Vec::new();
                let fields = fields_of(schema, name, &none);
                write_fields(schema, fields, values, out)
            },
            _ => Err(EncodeError::ShapeMismatch),
        },
    }
}

/// Writes one element of a field: an optional value when the field is
/// conditional, the base otherwise.
pub fn write_element(schema: &Schema, field: &Field, value: &Datum, out: &mut Vec<u8>) -> (r: Result<
    (),
    EncodeError,
>)
    ensures
        wrote(r, old(out)@, final(out)@, encode_element(schema@, field@, value@)),
    decreases value@, 1nat,
{
    match &field.condition {
        None => write_base(schema, &field.data_type, value, out),
        Some(condition) => match value {
            Datum::Optional(Some(inner)) => write_base(schema, &field.data_type, inner, out),
            Datum::Optional(None) => {
                if condition.advance_if_false {
                    let width = reserved(schema, &field.data_type);
                    let mut i: usize = 0;
                    while i < width
                        invariant
                            i <= width,
                            out@ == old(out)@ + zeros(i as nat),
                        decreases width - i,
                    {
                        out.push(0u8);
                        i += 1;
                        assert(out@ =~= old(out)@ + zeros(i as nat));
                    }
                } else {
                    assert(out@ =~= old(out)@ + Seq::<u8>::empty());
                }
                Ok(())
            },
            _ => Err(EncodeError::ShapeMismatch),
        },
    }
}

/// Writes the elements of a list one after the other.
pub fn write_elements(schema: &Schema, field: &Field, items: &Vec<Datum>, out: &mut Vec<u8>) -> (r: Result<
    (),
    EncodeError,
>)
    ensures
        wrote(
            r,
            old(out)@,
            final(out)@,
            encode_elements(schema@, field@, datum_views(items@), items@.len()),
        ),
    decreases datum_views(items@), 0nat,
{
    let mark = out.len();
    let mut i: usize = 0;
    assert(out@ =~= old(out)@ + Seq::<u8>::empty());
    while i < items.len()
        invariant
            i <= items@.len(),
            mark == old(out)@.len(),
            encode_elements(schema@, field@, datum_views(items@), i as nat) matches Ok(bytes) && out@ == old(out)@
                + bytes,
        decreases items@.len() - i,
    {
        let ghost head = encode_elements(schema@, field@, datum_views(items@), i as nat)->Ok_0;
        assert(datum_views(items@)[i as int] == items@[i as int]@);
        match write_element(schema, field, &items[i], out) {
            Ok(()) => {
                i += 1;
                proof {
                    let last = encode_element(schema@, field@, items@[i - 1]@)->Ok_0;
                    assert(out@ =~= old(out)@ + (head + last));
                }
            },
            Err(e) => {
                proof {
                    lemma_encode_elements_fail(schema@, field@, datum_views(items@), i as nat, items@.len());
                }
                out.truncate(mark);
                assert(out@ =~= old(out)@);
                return Err(e);
            },
        }
    }
    Ok(())
}

/// Writes a whole field: a list element by element when the field is
/// repeated, a single element otherwise.
pub fn write_field(schema: &Schema, field: &Field, value: &Datum, out: &mut Vec<u8>) -> (r: Result<
    (),
    EncodeError,
>)
    ensures
        wrote(r, old(out)@, final(out)@, encode_field(schema@, field@, value@)),
    decreases value@, 2nat,
{
    match &field.repetition {
        None => write_element(schema, field, value, out),
        Some(_) => match value {
            Datum::List(items) => write_elements(schema, field, items, out),
            _ => Err(EncodeError::ShapeMismatch),
        },
    }
}

/// Writes the values of the fields of a record in declared order. There
/// must be one value for each field.
pub fn write_fields(schema: &Schema, fields: &Vec<Field>, values: &Vec<Datum>, out: &mut Vec<u8>) -> (r: Result<
    (),
    EncodeError,
>)
    ensures
        wrote(r, old(out)@, final(out)@, encode_record(schema@, field_views(fields@), datum_views(values@))),
    decreases datum_views(values@), 0nat,
{
    proof {
        assert(datum_views(values@).len() == values@.len());
        assert(field_views(fields@).len() == fields@.len());
    }
    if values.len() != fields.len() {
        return Err(EncodeError::ShapeMismatch);
    }
    let mark = out.len();
    let mut i: usize = 0;
    assert(out@ =~= old(out)@ + Seq::<u8>::empty());
    while i < values.len()
        invariant
            i <= values@.len(),
            values@.len() == fields@.len(),
            mark == old(out)@.len(),
            encode_prefix(schema@, field_views(fields@), datum_views(values@), i as nat) matches Ok(bytes) && out@
                == old(out)@ + bytes,
        decreases values@.len() - i,
    {
        let ghost head = encode_prefix(schema@, field_views(fields@), datum_views(values@), i as nat)->Ok_0;
        assert(datum_views(values@)[i as int] == values@[i as int]@);
        match write_field(schema, &fields[i], &values[i], out) {
            Ok(()) => {
                i += 1;
                proof {
                    let last = encode_field(schema@, fields@[i - 1]@, values@[i - 1]@)->Ok_0;
                    assert(out@ =~= old(out)@ + (head + last));
                }
            },
            Err(e) => {
                proof {
                    lemma_encode_prefix_fail(
                        schema@,
                        field_views(fields@),
                        datum_views(values@),
                        i as nat,
                        values@.len(),
                    );
                }
                out.truncate(mark);
                assert(out@ =~= old(out)@);
                return Err(e);
            },
        }
    }
    Ok(())
}

/// A failure to write an element is the failure of every longer run of
/// elements.
proof fn lemma_encode_elements_fail(
    schema: SchemaView,
    field: FieldView,
    items: Seq<DatumView>,
    i: nat,
    n: nat,
)
    requires
        i < n <= items.len(),
        encode_elements(schema, field, items, i) is Ok,
        encode_element(schema, field, items[i as int]) is Err,
    ensures
        encode_elements(schema, field, items, n) == Err::<Seq<u8>, EncodeError>(
            encode_element(schema, field, items[i as int])->Err_0,
        ),
    decreases n,
{
    if n > i + 1 {
        lemma_encode_elements_fail(schema, field, items, i, (n - 1) as nat);
    }
}

/// A failure to write a field is the failure of every longer run of
/// fields.
proof fn lemma_encode_prefix_fail(
    schema: SchemaView,
    fields: Seq<FieldView>,
    values: Seq<DatumView>,
    i: nat,
    n: nat,
)
    requires
        i < n <= values.len(),
        encode_prefix(schema, fields, values, i) is Ok,
        encode_field(schema, fields[i as int], values[i as int]) is Err,
    ensures
        encode_prefix(schema, fields, values, n) == Err::<Seq<u8>, EncodeError>(
            encode_field(schema, fields[i as int], values[i as int])->Err_0,
        ),
    decreases n,
{
    if n > i + 1 {
        lemma_encode_prefix_fail(schema, fields, values, i, (n - 1) as nat);
    }
}

/// Whether `field` is well-formed in `schema`.
fn check_field(schema: &Schema, field: &Field) -> (r: bool)
    ensures
        r == field_valid(schema@, field@),
{
    let declared = match &field.data_type {
        DataType::Primitive(_) => true,
        DataType::Composite(name) => find_type_index(&schema.types, name).is_some(),
    };
    let reserves = match &field.condition {
        Some(condition) => condition.advance_if_false,
        None => false,
    };
    declared && (!reserves || width_of(schema, &field.data_type).is_some())
}

/// Whether every one of `fields` is well-formed in `schema`.
fn check_fields(schema: &Schema, fields: &Vec<Field>) -> (r: bool)
    ensures
        r == fields_valid(schema@, field_views(fields@)),
{
    let mut i: usize = 0;
    while i < fields.len()
        invariant
            i <= fields@.len(),
            forall|j: int| 0 <= j < i ==> field_valid(schema@, #[trigger] field_views(fields@)[j]),
        decreases fields@.len() - i,
    {
        if !check_field(schema, &fields[i]) {
            assert(!field_valid(schema@, field_views(fields@)[i as int]));
            return false;
        }
        i += 1;
    }
    true
}

/// Checks a schema: every composite type that a field names is declared,
/// and a field reserves space when it is absent only if its type has a
/// fixed width.
pub fn check_schema(schema: &Schema) -> (r: Result<(), SchemaError>)
    ensures
        r is Ok == schema_valid(schema@),
{
    if !check_fields(schema, &schema.items) {
        return Err(SchemaError::Malformed);
    }
    let mut t: usize = 0;
    while t < schema.types.len()
        invariant
            t <= schema.types@.len(),
            forall|u: int| 0 <= u < t ==> fields_valid(schema@, (#[trigger] schema@.types[u]).fields),
        decreases schema.types@.len() - t,
    {
        assert(schema@.types[t as int] == schema.types@[t as int]@);
        if !check_fields(schema, &schema.types[t].fields) {
            return Err(SchemaError::Malformed);
        }
        t += 1;
    }
    Ok(())
}

/// A checked schema, ready to decode and encode records.
pub struct Codec {
    schema: Schema,
    context_end: usize,
    nesting: usize,
}

impl View for Codec {
    type V = SchemaView;

    closed spec fn view(&self) -> SchemaView {
        self.schema@
    }
}

impl Codec {
    /// How many records this codec lets nest inside the root record.
    pub closed spec fn nesting(&self) -> nat {
        self.nesting as nat
    }

    #[verifier::type_invariant]
    spec fn well_formed(self) -> bool {
        &&& schema_valid(self.schema@)
        &&& self.context_end == context_boundary(self.schema@.items)
    }

    /// Builds the codec of `schema`, or refuses a schema that names a type
    /// it does not declare or reserves space for an absent value of a type
    /// without a fixed width. The codec lets `DEFAULT_NESTING` records nest
    /// inside the root record.
    pub fn new(schema: Schema) -> (r: Result<Codec, SchemaError>)
        ensures
            match r {
                Ok(codec) => schema_valid(schema@) && codec@ == schema@ && codec.nesting() == DEFAULT_NESTING,
                Err(e) => !schema_valid(schema@) && e == SchemaError::Malformed,
            },
    {
        Codec::with_nesting_limit(schema, DEFAULT_NESTING)
    }

    /// Builds the codec of `schema` as `new` does, for records that nest up
    /// to `limit` levels deep inside the root record. Every level takes its
    /// share of the call stack while it is decoded.
    pub fn with_nesting_limit(schema: Schema, limit: usize) -> (r: Result<Codec, SchemaError>)
        ensures
            match r {
                Ok(codec) => schema_valid(schema@) && codec@ == schema@ && codec.nesting() == limit,
                Err(e) => !schema_valid(schema@) && e == SchemaError::Malformed,
            },
    {
        match check_schema(&schema) {
            Ok(()) => {
                let k = context_end(&schema.items);
                Ok(Codec { schema, context_end: k, nesting: limit })
            },
            Err(e) => Err(e),
        }
    }

    /// How many records this codec lets nest inside the root record.
    pub fn nesting_limit(&self) -> (limit: usize)
        ensures
            limit == self.nesting(),
    {
        self.nesting
    }

    /// The schema this codec was built from.
    pub fn schema(&self) -> (s: &Schema)
        ensures
            s@ == self@,
            schema_valid(s@),
    {
        proof {
            use_type_invariant(self);
        }
        &self.schema
    }

    /// The index of the first root field that is not part of the shared
    /// context.
    pub fn context_len(&self) -> (k: usize)
        ensures
            k == context_boundary(self@.items),
    {
        proof {
            use_type_invariant(self);
        }
        self.context_end
    }

    /// Decodes one root record from the start of `input`.
    ///
    /// The fields before the context boundary are read first and become the
    /// shared context; the remaining fields are read with that context in
    /// scope. Returns the record and the number of bytes it occupies; bytes
    /// after the record are left alone. Any failure of a field is the
    /// failure of the whole decode.
    pub fn decode(&self, input: &[u8]) -> (r: Result<(Datum, usize), DecodeError>)
        ensures
            decoded_view(r) == decode_root(self@, input@, self.nesting()),
            r matches Ok((_, consumed)) ==> consumed <= input@.len(),
    {
        proof {
            use_type_invariant(self);
            lemma_consumed_within_input(self@, input@, self.nesting());
        }
        let items = &self.schema.items;
        let k = self.context_end;
        let depth = self.nesting;
        let ghost views = field_views(items@);
        proof {
            crate::schema::lemma_context_boundary(views);
        }
        let none: Vec<Binding> = Vec::new();
        let mut values: Vec<Datum> = Vec::new();
        let mut local: Vec<Binding> = Vec::new();
        proof {
            assert(datum_views(values@) =~= Seq::<DatumView>::empty());
            assert(scope_view(local@) =~= scope_of(views, datum_views(values@)));
            assert(scope_view(none@) =~= Seq::<BindingView>::empty());
        }
        let at = match read_span(&self.schema, items, 0, k, &mut values, &mut local, input, 0, &none, depth, Ghost(0int)) {
            Ok(at) => at,
            Err(e) => {
                return Err(e);
            },
        };
        let mut context: Vec<Binding> = Vec::new();
        let mut i: usize = 0;
        proof {
            lemma_prefix_len(self@, views, k as nat, input@, 0, scope_view(none@), depth as nat);
        }
        while i < k
            invariant
                i <= k == values@.len(),
                k <= items@.len(),
                views == field_views(items@),
                scope_view(context@) == scope_of(views, datum_views(values@)).take(i as int),
            decreases k - i,
        {
            let binding = binding_for(&items[i], &values[i]);
            proof {
                let whole = scope_of(views, datum_views(values@));
                assert(datum_views(values@)[i as int] == values@[i as int]@);
                lemma_scope_view_push(context@, binding);
                assert(whole.take(i + 1) =~= whole.take(i as int).push(whole[i as int]));
            }
            context.push(binding);
            i += 1;
        }
        proof {
            let head = datum_views(values@);
            assert(scope_of(views, head).take(k as int) =~= scope_of(views, head));
            assert(root_context(self@, input@, depth as nat) == Ok::<Seq<BindingView>, DecodeError>(scope_view(context@)));
            lemma_context_ignores_scope(
                self@,
                views,
                k as nat,
                input@,
                0,
                scope_view(none@),
                scope_view(context@),
                depth as nat,
            );
        }
        match read_span(
            &self.schema,
            items,
            k,
            items.len(),
            &mut values,
            &mut local,
            input,
            at,
            &context,
            depth,
            Ghost(0int),
        ) {
            Ok(end) => Ok((Datum::Record(values), end)),
            Err(e) => Err(e),
        }
    }

    /// Encodes one root record into at most `capacity` bytes.
    ///
    /// The fields are written in declared order, following the stored
    /// values. A value that does not have the shape of the record is
    /// refused; an encoding longer than `capacity` is a failure of the
    /// destination, and nothing is handed out.
    pub fn encode(&self, value: &Datum, capacity: usize) -> (r: Result<Vec<u8>, EncodeError>)
        ensures
            match encode_root(self@, value@) {
                Ok(bytes) => if bytes.len() <= capacity {
                    r matches Ok(out) && out@ == bytes
                } else {
                    r matches Err(e) && e == EncodeError::SinkFailure
                },
                Err(e) => r matches Err(f) && f == e,
            },
    {
        proof {
            use_type_invariant(self);
        }
        match value {
            Datum::Record(values) => {
                let mut out: Vec<u8> = Vec::new();
                match write_fields(&self.schema, &self.schema.items, values, &mut out) {
                    Ok(()) => {
                        assert(out@ =~= encode_root(self@, value@)->Ok_0);
                        if out.len() <= capacity {
                            Ok(out)
                        } else {
                            Err(EncodeError::SinkFailure)
                        }
                    },
                    Err(e) => Err(e),
                }
            },
            _ => Err(EncodeError::ShapeMismatch),
        }
    }
}

} // verus!
