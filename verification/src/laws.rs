//! Laws of the wire format: what holds of every schema, input and value.

use crate::datum::DatumView;
use crate::expr::{
    eval, eval_count, eval_flag, lemma_lookup_in_scope, lemma_unbound_name_fails, lookup, mentions_local,
    mentions_root, names, BindingView, ExprView,
};
use crate::primitive::{lemma_scalar_bytes_len, lemma_scalar_read_of_written, scalar_at};
use crate::schema::{
    context_boundary, field_width, find_type, fixed_width, is_context_field, lemma_context_boundary,
    record_width, type_fields, type_width, DataTypeView, FieldView, RepetitionView, SchemaView,
};
use crate::wire::{
    condition_well_formed, datum_operand, decode_base, decode_element, decode_elements, decode_field,
    decode_prefix, decode_root, encode_base, encode_element, encode_elements, encode_field, encode_prefix,
    encode_root, root_context, scope_of, zeros, DecodeError, EncodeError,
};
use vstd::prelude::*;

verus! {

/// Repetition fails as a whole: when the elements before index `i` were
/// read and the element at index `i` fails, every count above `i` fails
/// with the failure of that element.
pub proof fn lemma_elements_fail(
    schema: SchemaView,
    field: FieldView,
    i: nat,
    n: nat,
    input: Seq<u8>,
    pos: int,
    local: Seq<BindingView>,
    root: Seq<BindingView>,
    depth: nat,
)
    requires
        i < n,
        decode_elements(schema, field, i, input, pos, local, root, depth) matches Ok((_, mid)) && decode_element(
            schema,
            field,
            input,
            mid,
            local,
            root,
            depth,
        ) is Err,
    ensures
        decode_elements(schema, field, n, input, pos, local, root, depth) == Err::<(Seq<DatumView>, int), DecodeError>(
            decode_element(
                schema,
                field,
                input,
                decode_elements(schema, field, i, input, pos, local, root, depth)->Ok_0.1,
                local,
                root,
                depth,
            )->Err_0,
        ),
    decreases n,
{
    if n > i + 1 {
        lemma_elements_fail(schema, field, i, (n - 1) as nat, input, pos, local, root, depth);
    }
}

/// A record fails as a whole: when the fields before index `i` were read
/// and the field at index `i` fails, every longer prefix of the record
/// fails with the failure of that field.
pub proof fn lemma_prefix_fail(
    schema: SchemaView,
    fields: Seq<FieldView>,
    i: nat,
    n: nat,
    input: Seq<u8>,
    pos: int,
    root: Seq<BindingView>,
    depth: nat,
)
    requires
        i < n,
        decode_prefix(schema, fields, i, input, pos, root, depth) matches Ok((values, mid)) && decode_field(
            schema,
            fields[i as int],
            input,
            mid,
            scope_of(fields, values),
            root,
            depth,
        ) is Err,
    ensures
        decode_prefix(schema, fields, n, input, pos, root, depth) == Err::<(Seq<DatumView>, int), DecodeError>(
            decode_field(
                schema,
                fields[i as int],
                input,
                decode_prefix(schema, fields, i, input, pos, root, depth)->Ok_0.1,
                scope_of(fields, decode_prefix(schema, fields, i, input, pos, root, depth)->Ok_0.0),
                root,
                depth,
            )->Err_0,
        ),
    decreases n,
{
    if n > i + 1 {
        lemma_prefix_fail(schema, fields, i, (n - 1) as nat, input, pos, root, depth);
    }
}

/// The fields before the context boundary are read the same way whatever
/// the shared context holds: they are what the context is made of.
pub proof fn lemma_context_ignores_scope(
    schema: SchemaView,
    fields: Seq<FieldView>,
    n: nat,
    input: Seq<u8>,
    pos: int,
    root: Seq<BindingView>,
    other: Seq<BindingView>,
    depth: nat,
)
    requires
        n <= context_boundary(fields),
    ensures
        decode_prefix(schema, fields, n, input, pos, root, depth) == decode_prefix(
            schema,
            fields,
            n,
            input,
            pos,
            other,
            depth,
        ),
    decreases n,
{
    if n > 0 {
        lemma_context_boundary(fields);
        lemma_context_ignores_scope(schema, fields, (n - 1) as nat, input, pos, root, other, depth);
        let field = fields[n - 1];
        assert(is_context_field(field));
        if let Ok((values, mid)) = decode_prefix(schema, fields, (n - 1) as nat, input, pos, root, depth) {
            let local = scope_of(fields, values);
            assert(decode_field(schema, field, input, mid, local, root, depth) == decode_element(
                schema,
                field,
                input,
                mid,
                local,
                root,
                depth,
            ));
            assert(decode_field(schema, field, input, mid, local, other, depth) == decode_element(
                schema,
                field,
                input,
                mid,
                local,
                other,
                depth,
            ));
            assert(decode_element(schema, field, input, mid, local, root, depth) == decode_base(
                schema,
                field.data_type,
                input,
                mid,
                root,
                depth,
            ));
            assert(decode_element(schema, field, input, mid, local, other, depth) == decode_base(
                schema,
                field.data_type,
                input,
                mid,
                other,
                depth,
            ));
        }
    }
}

/// The values read for the first `n` fields of a record are `n` values.
pub proof fn lemma_prefix_len(
    schema: SchemaView,
    fields: Seq<FieldView>,
    n: nat,
    input: Seq<u8>,
    pos: int,
    root: Seq<BindingView>,
    depth: nat,
)
    ensures
        decode_prefix(schema, fields, n, input, pos, root, depth) matches Ok((values, _)) ==> values.len() == n,
    decreases n,
{
    if n > 0 {
        lemma_prefix_len(schema, fields, (n - 1) as nat, input, pos, root, depth);
    }
}

/// A record that was read holds, for every shorter prefix of its fields,
/// the values read for that prefix.
pub proof fn lemma_prefix_of_prefix(
    schema: SchemaView,
    fields: Seq<FieldView>,
    m: nat,
    n: nat,
    input: Seq<u8>,
    pos: int,
    root: Seq<BindingView>,
    depth: nat,
)
    requires
        m <= n,
        decode_prefix(schema, fields, n, input, pos, root, depth) is Ok,
    ensures
        decode_prefix(schema, fields, m, input, pos, root, depth) matches Ok((head, _)) && head
            == decode_prefix(schema, fields, n, input, pos, root, depth)->Ok_0.0.take(m as int),
    decreases n,
{
    lemma_prefix_len(schema, fields, n, input, pos, root, depth);
    let values = decode_prefix(schema, fields, n, input, pos, root, depth)->Ok_0.0;
    if m == n {
        assert(values.take(m as int) =~= values);
    } else {
        lemma_prefix_of_prefix(schema, fields, m, (n - 1) as nat, input, pos, root, depth);
        lemma_prefix_len(schema, fields, (n - 1) as nat, input, pos, root, depth);
        let shorter = decode_prefix(schema, fields, (n - 1) as nat, input, pos, root, depth)->Ok_0.0;
        assert(shorter.take(m as int) =~= values.take(m as int));
    }
}

/// The bytes `bytes` stand in `input` at offset `pos`.
pub open spec fn occupies(input: Seq<u8>, pos: int, bytes: Seq<u8>) -> bool {
    &&& 0 <= pos
    &&& pos + bytes.len() <= input.len()
    &&& input.subrange(pos, pos + bytes.len()) == bytes
}

proof fn lemma_occupies_split(input: Seq<u8>, pos: int, head: Seq<u8>, last: Seq<u8>)
    requires
        occupies(input, pos, head + last),
    ensures
        occupies(input, pos, head),
        occupies(input, pos + head.len(), last),
{
    let whole = head + last;
    let window = input.subrange(pos, pos + whole.len());
    assert forall|i: int| 0 <= i < head.len() implies input[pos + i] == head[i] by {
        assert(window[i] == whole[i]);
    }
    assert forall|i: int| 0 <= i < last.len() implies input[pos + head.len() + i] == last[i] by {
        assert(window[head.len() + i] == whole[head.len() + i]);
    }
    assert(input.subrange(pos, pos + head.len()) =~= head);
    assert(input.subrange(pos + head.len(), pos + head.len() + last.len()) =~= last);
}

/// Writing the first `n` elements of a list does not depend on what comes
/// after them.
proof fn lemma_encode_elements_extend(
    schema: SchemaView,
    field: FieldView,
    items: Seq<DatumView>,
    extra: DatumView,
    n: nat,
)
    requires
        n <= items.len(),
    ensures
        encode_elements(schema, field, items.push(extra), n) == encode_elements(schema, field, items, n),
    decreases n,
{
    if n > 0 {
        lemma_encode_elements_extend(schema, field, items, extra, (n - 1) as nat);
        assert(items.push(extra)[n - 1] == items[n - 1]);
    }
}

/// Writing the first `n` fields of a record does not depend on the values
/// after them.
proof fn lemma_encode_prefix_extend(
    schema: SchemaView,
    fields: Seq<FieldView>,
    values: Seq<DatumView>,
    extra: DatumView,
    n: nat,
)
    requires
        n <= values.len(),
    ensures
        encode_prefix(schema, fields, values.push(extra), n) == encode_prefix(schema, fields, values, n),
    decreases n,
{
    if n > 0 {
        lemma_encode_prefix_extend(schema, fields, values, extra, (n - 1) as nat);
        assert(values.push(extra)[n - 1] == values[n - 1]);
    }
}

/// The base of a field survives a round trip: what was read can be
/// written, the bytes written are as many as were consumed, and wherever
/// those bytes stand they are read as the same value.
pub proof fn lemma_base_round_trip(
    schema: SchemaView,
    data_type: DataTypeView,
    input: Seq<u8>,
    pos: int,
    root: Seq<BindingView>,
    depth: nat,
    other: Seq<u8>,
    at: int,
)
    requires
        0 <= pos,
        decode_base(schema, data_type, input, pos, root, depth) is Ok,
    ensures
        ({
            let (value, next) = decode_base(schema, data_type, input, pos, root, depth)->Ok_0;
            let written = encode_base(schema, data_type, value);
            &&& written is Ok
            &&& written->Ok_0.len() == next - pos
            &&& occupies(other, at, written->Ok_0) ==> decode_base(schema, data_type, other, at, root, depth) == Ok::<
                (DatumView, int),
                DecodeError,
            >((value, at + (next - pos)))
        }),
    decreases depth, 0nat, 0nat,
{
    match data_type {
        DataTypeView::Primitive(kind) => {
            let (scalar, next) = scalar_at(kind, schema.endianness, input, pos)->Some_0;
            lemma_scalar_bytes_len(scalar, schema.endianness);
            lemma_scalar_read_of_written(scalar, schema.endianness);
            assert(scalar.kind() == kind);
        },
        DataTypeView::Composite(name) => {
            let fields = type_fields(schema, name);
            lemma_prefix_round_trip(schema, fields, fields.len(), input, pos, root, (depth - 1) as nat, other, at);
        },
    }
}

/// One element of a field survives a round trip. An absent element that
/// reserves its width is written as zero bytes and read as absent again.
pub proof fn lemma_element_round_trip(
    schema: SchemaView,
    field: FieldView,
    input: Seq<u8>,
    pos: int,
    local: Seq<BindingView>,
    root: Seq<BindingView>,
    depth: nat,
    other: Seq<u8>,
    at: int,
)
    requires
        0 <= pos,
        decode_element(schema, field, input, pos, local, root, depth) is Ok,
    ensures
        ({
            let (value, next) = decode_element(schema, field, input, pos, local, root, depth)->Ok_0;
            let written = encode_element(schema, field, value);
            &&& written is Ok
            &&& written->Ok_0.len() == next - pos
            &&& occupies(other, at, written->Ok_0) ==> decode_element(schema, field, other, at, local, root, depth)
                == Ok::<(DatumView, int), DecodeError>((value, at + (next - pos)))
        }),
    decreases depth, 1nat, 0nat,
{
    match field.condition {
        None => {
            lemma_base_round_trip(schema, field.data_type, input, pos, root, depth, other, at);
        },
        Some(condition) => {
            if eval_flag(condition.expression, local, root) == Some(true) {
                lemma_base_round_trip(schema, field.data_type, input, pos, root, depth, other, at);
            }
        },
    }
}

/// A run of elements survives a round trip, element by element.
pub proof fn lemma_elements_round_trip(
    schema: SchemaView,
    field: FieldView,
    count: nat,
    input: Seq<u8>,
    pos: int,
    local: Seq<BindingView>,
    root: Seq<BindingView>,
    depth: nat,
    other: Seq<u8>,
    at: int,
)
    requires
        0 <= pos,
        decode_elements(schema, field, count, input, pos, local, root, depth) is Ok,
    ensures
        ({
            let (items, next) = decode_elements(schema, field, count, input, pos, local, root, depth)->Ok_0;
            let written = encode_elements(schema, field, items, count);
            &&& items.len() == count
            &&& written is Ok
            &&& written->Ok_0.len() == next - pos
            &&& occupies(other, at, written->Ok_0) ==> decode_elements(
                schema,
                field,
                count,
                other,
                at,
                local,
                root,
                depth,
            ) == Ok::<(Seq<DatumView>, int), DecodeError>((items, at + (next - pos)))
        }),
    decreases depth, 2nat, count,
{
    if count > 0 {
        let shorter = (count - 1) as nat;
        let (head, mid) = decode_elements(schema, field, shorter, input, pos, local, root, depth)->Ok_0;
        let (value, next) = decode_element(schema, field, input, mid, local, root, depth)->Ok_0;
        lemma_elements_round_trip(schema, field, shorter, input, pos, local, root, depth, other, at);
        let first = encode_elements(schema, field, head, shorter)->Ok_0;
        lemma_element_round_trip(schema, field, input, mid, local, root, depth, other, at + first.len());
        let last = encode_element(schema, field, value)->Ok_0;
        lemma_encode_elements_extend(schema, field, head, value, shorter);
        assert(head.push(value)[count - 1] == value);
        assert(encode_elements(schema, field, head.push(value), count) == Ok::<Seq<u8>, EncodeError>(first + last));
        if occupies(other, at, first + last) {
            lemma_occupies_split(other, at, first, last);
        }
    }
}

/// A whole field survives a round trip.
pub proof fn lemma_field_round_trip(
    schema: SchemaView,
    field: FieldView,
    input: Seq<u8>,
    pos: int,
    local: Seq<BindingView>,
    root: Seq<BindingView>,
    depth: nat,
    other: Seq<u8>,
    at: int,
)
    requires
        0 <= pos,
        decode_field(schema, field, input, pos, local, root, depth) is Ok,
    ensures
        ({
            let (value, next) = decode_field(schema, field, input, pos, local, root, depth)->Ok_0;
            let written = encode_field(schema, field, value);
            &&& written is Ok
            &&& written->Ok_0.len() == next - pos
            &&& occupies(other, at, written->Ok_0) ==> decode_field(schema, field, other, at, local, root, depth)
                == Ok::<(DatumView, int), DecodeError>((value, at + (next - pos)))
        }),
    decreases depth, 3nat, 0nat,
{
    match field.repetition {
        None => {
            lemma_element_round_trip(schema, field, input, pos, local, root, depth, other, at);
        },
        Some(RepetitionView::Count(count)) => {
            let n = eval_count(count, local, root)->Some_0;
            lemma_elements_round_trip(schema, field, n as nat, input, pos, local, root, depth, other, at);
        },
    }
}

/// A prefix of a record survives a round trip, field by field: each field
/// is read again in the scope of the same earlier values.
pub proof fn lemma_prefix_round_trip(
    schema: SchemaView,
    fields: Seq<FieldView>,
    n: nat,
    input: Seq<u8>,
    pos: int,
    root: Seq<BindingView>,
    depth: nat,
    other: Seq<u8>,
    at: int,
)
    requires
        0 <= pos,
        decode_prefix(schema, fields, n, input, pos, root, depth) is Ok,
    ensures
        ({
            let (values, next) = decode_prefix(schema, fields, n, input, pos, root, depth)->Ok_0;
            let written = encode_prefix(schema, fields, values, n);
            &&& values.len() == n
            &&& written is Ok
            &&& written->Ok_0.len() == next - pos
            &&& occupies(other, at, written->Ok_0) ==> decode_prefix(schema, fields, n, other, at, root, depth)
                == Ok::<(Seq<DatumView>, int), DecodeError>((values, at + (next - pos)))
        }),
    decreases depth, 4nat, n,
{
    if n > 0 {
        let shorter = (n - 1) as nat;
        let (head, mid) = decode_prefix(schema, fields, shorter, input, pos, root, depth)->Ok_0;
        let local = scope_of(fields, head);
        let (value, next) = decode_field(schema, fields[n - 1], input, mid, local, root, depth)->Ok_0;
        lemma_prefix_round_trip(schema, fields, shorter, input, pos, root, depth, other, at);
        let first = encode_prefix(schema, fields, head, shorter)->Ok_0;
        lemma_field_round_trip(schema, fields[n - 1], input, mid, local, root, depth, other, at + first.len());
        let last = encode_field(schema, fields[n - 1], value)->Ok_0;
        lemma_encode_prefix_extend(schema, fields, head, value, shorter);
        assert(head.push(value)[n - 1] == value);
        assert(encode_prefix(schema, fields, head.push(value), n) == Ok::<Seq<u8>, EncodeError>(first + last));
        if occupies(other, at, first + last) {
            lemma_occupies_split(other, at, first, last);
        }
    }
}

/// Round trip: a record that was decoded can be encoded; its encoding is
/// as long as the input that the decode consumed; and decoding the encoding
/// gives the record back.
pub proof fn lemma_round_trip(schema: SchemaView, input: Seq<u8>, depth: nat)
    requires
        decode_root(schema, input, depth) is Ok,
    ensures
        ({
            let (value, consumed) = decode_root(schema, input, depth)->Ok_0;
            let written = encode_root(schema, value);
            &&& written is Ok
            &&& written->Ok_0.len() == consumed
            &&& decode_root(schema, written->Ok_0, depth) == Ok::<(DatumView, int), DecodeError>((value, consumed))
        }),
{
    let items = schema.items;
    let k = context_boundary(items);
    let none = Seq::<BindingView>::empty();
    lemma_context_boundary(items);
    let root = root_context(schema, input, depth)->Ok_0;
    let (values, end) = decode_prefix(schema, items, items.len(), input, 0, root, depth)->Ok_0;
    let bytes = encode_prefix(schema, items, values, items.len());
    lemma_prefix_round_trip(schema, items, items.len(), input, 0, root, depth, bytes->Ok_0, 0);
    assert(bytes->Ok_0.subrange(0, bytes->Ok_0.len() as int) =~= bytes->Ok_0);
    // The context is made of the first values of the record, in both decodes.
    lemma_prefix_of_prefix(schema, items, k, items.len(), input, 0, root, depth);
    lemma_context_ignores_scope(schema, items, k, input, 0, none, root, depth);
    lemma_prefix_of_prefix(schema, items, k, items.len(), bytes->Ok_0, 0, root, depth);
    lemma_context_ignores_scope(schema, items, k, bytes->Ok_0, 0, none, root, depth);
}

/// An absent field that reserves its width has a fixed size on the wire:
/// it is written as exactly as many zero bytes as its type is wide, and
/// where its condition is false exactly that many bytes are consumed,
/// whatever they hold. For a scalar that is the width of its kind.
pub proof fn lemma_reserved_width(
    schema: SchemaView,
    field: FieldView,
    width: nat,
    input: Seq<u8>,
    other: Seq<u8>,
    pos: int,
    local: Seq<BindingView>,
    root: Seq<BindingView>,
    depth: nat,
)
    requires
        fixed_width(schema, field.data_type) == Some(width),
        field.condition matches Some(c) && c.advance_if_false && eval_flag(c.expression, local, root) == Some(
            false,
        ),
        0 <= pos,
        input.len() == other.len(),
    ensures
        field.data_type matches DataTypeView::Primitive(kind) ==> width == kind.width(),
        encode_element(schema, field, DatumView::Optional(None)) == Ok::<Seq<u8>, EncodeError>(zeros(width)),
        zeros(width).len() == width,
        forall|i: int| 0 <= i < width ==> zeros(width)[i] == 0u8,
        decode_element(schema, field, input, pos, local, root, depth) == (if pos + width <= input.len() {
            Ok::<(DatumView, int), DecodeError>((DatumView::Optional(None), pos + width))
        } else {
            Err::<(DatumView, int), DecodeError>(DecodeError::Truncated)
        }),
        decode_element(schema, field, other, pos, local, root, depth) == decode_element(
            schema,
            field,
            input,
            pos,
            local,
            root,
            depth,
        ),
{
}

/// Following composite types deeper never changes a width that was found.
pub proof fn lemma_type_width_grows(schema: SchemaView, data_type: DataTypeView, fuel: nat, more: nat)
    requires
        fuel <= more,
        type_width(schema, data_type, fuel) is Some,
    ensures
        type_width(schema, data_type, more) == type_width(schema, data_type, fuel),
    decreases fuel, 0nat, 0nat,
{
    if let DataTypeView::Composite(name) = data_type {
        let fields = schema.types[find_type(schema.types, name)->Some_0].fields;
        lemma_record_width_grows(schema, fields, fields.len(), (fuel - 1) as nat, (more - 1) as nat);
    }
}

/// Following composite types deeper never changes the width of a run of
/// fields that was found.
pub proof fn lemma_record_width_grows(schema: SchemaView, fields: Seq<FieldView>, n: nat, fuel: nat, more: nat)
    requires
        fuel <= more,
        record_width(schema, fields, n, fuel) is Some,
    ensures
        record_width(schema, fields, n, more) == record_width(schema, fields, n, fuel),
    decreases fuel, 2nat, n,
{
    if n > 0 {
        let field = fields[n - 1];
        assert(field_width(schema, field, fuel) is Some);
        assert(field_width(schema, field, fuel) == type_width(schema, field.data_type, fuel));
        lemma_record_width_grows(schema, fields, (n - 1) as nat, fuel, more);
        lemma_type_width_grows(schema, field.data_type, fuel, more);
        assert(field_width(schema, field, more) == type_width(schema, field.data_type, more));
    }
}

/// A type with a fixed width always occupies that width: whatever value is
/// read as the base of a field of that type, it ends that many bytes after
/// its start.
pub proof fn lemma_base_has_width(
    schema: SchemaView,
    data_type: DataTypeView,
    fuel: nat,
    input: Seq<u8>,
    pos: int,
    root: Seq<BindingView>,
    depth: nat,
)
    requires
        fuel <= schema.types.len(),
        type_width(schema, data_type, fuel) is Some,
        decode_base(schema, data_type, input, pos, root, depth) is Ok,
    ensures
        decode_base(schema, data_type, input, pos, root, depth)->Ok_0.1 == pos + type_width(
            schema,
            data_type,
            fuel,
        )->Some_0,
    decreases depth, 0nat, 0nat,
{
    if let DataTypeView::Composite(name) = data_type {
        let fields = type_fields(schema, name);
        lemma_prefix_has_width(schema, fields, fields.len(), (fuel - 1) as nat, input, pos, root, (depth - 1) as nat);
    }
}

/// A run of fields with a fixed width always occupies that width.
pub proof fn lemma_prefix_has_width(
    schema: SchemaView,
    fields: Seq<FieldView>,
    n: nat,
    fuel: nat,
    input: Seq<u8>,
    pos: int,
    root: Seq<BindingView>,
    depth: nat,
)
    requires
        fuel <= schema.types.len(),
        record_width(schema, fields, n, fuel) is Some,
        decode_prefix(schema, fields, n, input, pos, root, depth) is Ok,
    ensures
        decode_prefix(schema, fields, n, input, pos, root, depth)->Ok_0.1 == pos + record_width(
            schema,
            fields,
            n,
            fuel,
        )->Some_0,
    decreases depth, 4nat, n,
{
    if n > 0 {
        let field = fields[n - 1];
        let (head, mid) = decode_prefix(schema, fields, (n - 1) as nat, input, pos, root, depth)->Ok_0;
        lemma_prefix_has_width(schema, fields, (n - 1) as nat, fuel, input, pos, root, depth);
        let local = scope_of(fields, head);
        assert(field_width(schema, field, fuel) is Some);
        assert(field_width(schema, field, fuel) == type_width(schema, field.data_type, fuel));
        assert(field.repetition is None);
        assert(decode_field(schema, field, input, mid, local, root, depth) == decode_element(
            schema,
            field,
            input,
            mid,
            local,
            root,
            depth,
        ));
        lemma_type_width_grows(schema, field.data_type, fuel, schema.types.len());
        if decode_element(schema, field, input, mid, local, root, depth)->Ok_0.0 != DatumView::Optional(None) {
            lemma_base_has_width(schema, field.data_type, fuel, input, mid, root, depth);
        }
    }
}

/// A root record whose first field is composite, conditional or repeated
/// has an empty shared context.
pub proof fn lemma_empty_context(schema: SchemaView, input: Seq<u8>, depth: nat)
    requires
        schema.items.len() == 0 || !is_context_field(schema.items[0]),
    ensures
        context_boundary(schema.items) == 0,
        root_context(schema, input, depth) == Ok::<Seq<BindingView>, DecodeError>(Seq::empty()),
{
    assert(scope_of(schema.items, Seq::<DatumView>::empty()) =~= Seq::<BindingView>::empty());
}

/// The shared context names the root fields before the context boundary,
/// one binding for each, in order.
pub proof fn lemma_context_names(schema: SchemaView, input: Seq<u8>, depth: nat)
    requires
        root_context(schema, input, depth) is Ok,
    ensures
        root_context(schema, input, depth)->Ok_0.len() == context_boundary(schema.items),
        forall|j: int|
            0 <= j < context_boundary(schema.items) ==> (#[trigger] root_context(schema, input, depth)->Ok_0[j]).name
                == schema.items[j].id,
{
    lemma_prefix_len(
        schema,
        schema.items,
        context_boundary(schema.items),
        input,
        0,
        Seq::empty(),
        depth,
    );
}

/// Visibility: the field at index `values.len()` of a record sees the
/// fields before it and no other field of the record. A name resolves in
/// its scope only if an earlier field carries it, and then to the value
/// that was decoded for such a field; an expression that names, anywhere, a
/// field at its own index or later has no value.
pub proof fn lemma_visibility(
    fields: Seq<FieldView>,
    values: Seq<DatumView>,
    e: ExprView,
    name: Seq<char>,
    root: Seq<BindingView>,
)
    ensures
        scope_of(fields, values).len() == values.len(),
        lookup(scope_of(fields, values), name) is Some ==> exists|j: int|
            0 <= j < values.len() && (#[trigger] fields[j]).id == name && lookup(scope_of(fields, values), name)
                == datum_operand(values[j]),
        mentions_local(e, name) && (forall|j: int| 0 <= j < values.len() ==> (#[trigger] fields[j]).id != name)
            ==> eval(e, scope_of(fields, values), root) is None,
{
    let scope = scope_of(fields, values);
    lemma_lookup_in_scope(scope, name);
    if names(scope, name) {
        let i = choose|i: int|
            0 <= i < scope.len() && (#[trigger] scope[i]).name == name && lookup(scope, name) == scope[i].operand;
        assert(fields[i].id == name);
    } else if mentions_local(e, name) {
        lemma_unbound_name_fails(e, name, scope, root);
    }
}

/// Whether `e` names, anywhere, a field that is in neither scope.
pub open spec fn names_out_of_scope(
    e: ExprView,
    name: Seq<char>,
    local: Seq<BindingView>,
    root: Seq<BindingView>,
) -> bool {
    mentions_local(e, name) && !names(local, name) || mentions_root(e, name) && !names(root, name)
}

/// A field whose condition or count names, anywhere, a field that is not
/// in scope is never decoded: its decode fails, whatever the input holds
/// and whatever the rest of the expression would evaluate to.
pub proof fn lemma_out_of_scope_fails(
    schema: SchemaView,
    field: FieldView,
    name: Seq<char>,
    input: Seq<u8>,
    pos: int,
    local: Seq<BindingView>,
    root: Seq<BindingView>,
    depth: nat,
)
    requires
        (field.condition matches Some(c) && names_out_of_scope(c.expression, name, local, root)) || (
        field.repetition matches Some(RepetitionView::Count(count)) && names_out_of_scope(
            count,
            name,
            local,
            root,
        )),
    ensures
        decode_field(schema, field, input, pos, local, root, depth) == Err::<(DatumView, int), DecodeError>(
            DecodeError::ExpressionEvaluationFailed,
        ),
{
    if field.condition matches Some(c) && names_out_of_scope(c.expression, name, local, root) {
        lemma_unbound_name_fails(field.condition->Some_0.expression, name, local, root);
    }
    if field.repetition matches Some(RepetitionView::Count(count)) && names_out_of_scope(
        count,
        name,
        local,
        root,
    ) {
        lemma_unbound_name_fails(field.repetition->Some_0->Count_0, name, local, root);
    }
}

/// A count of zero gives an empty list and consumes nothing, for a field
/// whose condition, if it has one, is well formed.
pub proof fn lemma_no_elements(
    schema: SchemaView,
    field: FieldView,
    input: Seq<u8>,
    pos: int,
    local: Seq<BindingView>,
    root: Seq<BindingView>,
    depth: nat,
)
    requires
        field.repetition matches Some(RepetitionView::Count(count)) && eval_count(count, local, root) == Some(
            0u64,
        ),
        condition_well_formed(field, local, root),
    ensures
        decode_elements(schema, field, 0, input, pos, local, root, depth) == Ok::<
            (Seq<DatumView>, int),
            DecodeError,
        >((Seq::empty(), pos)),
        decode_field(schema, field, input, pos, local, root, depth) == Ok::<(DatumView, int), DecodeError>(
            (DatumView::List(Seq::empty()), pos),
        ),
{
}

/// The elements read for a count of `n` are `n` elements.
pub proof fn lemma_elements_len(
    schema: SchemaView,
    field: FieldView,
    n: nat,
    input: Seq<u8>,
    pos: int,
    local: Seq<BindingView>,
    root: Seq<BindingView>,
    depth: nat,
)
    ensures
        decode_elements(schema, field, n, input, pos, local, root, depth) matches Ok((items, _)) ==> items.len()
            == n,
    decreases n,
{
    if n > 0 {
        lemma_elements_len(schema, field, (n - 1) as nat, input, pos, local, root, depth);
    }
}

/// A count of `n` gives exactly `n` elements, read in order: the element
/// at index `i` is read where the elements before it end.
pub proof fn lemma_elements_in_order(
    schema: SchemaView,
    field: FieldView,
    i: nat,
    n: nat,
    input: Seq<u8>,
    pos: int,
    local: Seq<BindingView>,
    root: Seq<BindingView>,
    depth: nat,
)
    requires
        i < n,
        decode_elements(schema, field, n, input, pos, local, root, depth) is Ok,
    ensures
        ({
            let items = decode_elements(schema, field, n, input, pos, local, root, depth)->Ok_0.0;
            let before = decode_elements(schema, field, i, input, pos, local, root, depth);
            &&& items.len() == n
            &&& before matches Ok((head, mid)) && head == items.take(i as int) && (decode_element(
                schema,
                field,
                input,
                mid,
                local,
                root,
                depth,
            ) matches Ok((value, _)) && value == items[i as int])
        }),
    decreases n,
{
    let items = decode_elements(schema, field, n, input, pos, local, root, depth)->Ok_0.0;
    let (shorter, mid) = decode_elements(schema, field, (n - 1) as nat, input, pos, local, root, depth)->Ok_0;
    lemma_elements_len(schema, field, (n - 1) as nat, input, pos, local, root, depth);
    if i + 1 == n {
        assert(items.take(i as int) =~= shorter);
    } else {
        lemma_elements_in_order(schema, field, i, (n - 1) as nat, input, pos, local, root, depth);
        assert(items.take(i as int) =~= shorter.take(i as int));
    }
}

/// The cursor only moves forward and stays inside the input: the base of
/// a field that was read at `pos` ends at or after `pos` and at or before
/// the end of the input.
pub proof fn lemma_base_advances(
    schema: SchemaView,
    data_type: DataTypeView,
    input: Seq<u8>,
    pos: int,
    root: Seq<BindingView>,
    depth: nat,
)
    requires
        0 <= pos <= input.len(),
    ensures
        decode_base(schema, data_type, input, pos, root, depth) matches Ok((_, next)) ==> pos <= next
            <= input.len(),
    decreases depth, 0nat, 0nat,
{
    match data_type {
        DataTypeView::Primitive(_) => {},
        DataTypeView::Composite(name) => {
            if depth > 0 {
                let fields = type_fields(schema, name);
                lemma_prefix_advances(schema, fields, fields.len(), input, pos, root, (depth - 1) as nat);
            }
        },
    }
}

/// The cursor only moves forward over one element of a field.
pub proof fn lemma_element_advances(
    schema: SchemaView,
    field: FieldView,
    input: Seq<u8>,
    pos: int,
    local: Seq<BindingView>,
    root: Seq<BindingView>,
    depth: nat,
)
    requires
        0 <= pos <= input.len(),
    ensures
        decode_element(schema, field, input, pos, local, root, depth) matches Ok((_, next)) ==> pos <= next
            <= input.len(),
    decreases depth, 1nat, 0nat,
{
    lemma_base_advances(schema, field.data_type, input, pos, root, depth);
}

/// The cursor only moves forward over a run of elements.
pub proof fn lemma_elements_advance(
    schema: SchemaView,
    field: FieldView,
    count: nat,
    input: Seq<u8>,
    pos: int,
    local: Seq<BindingView>,
    root: Seq<BindingView>,
    depth: nat,
)
    requires
        0 <= pos <= input.len(),
    ensures
        decode_elements(schema, field, count, input, pos, local, root, depth) matches Ok((_, next)) ==> pos
            <= next <= input.len(),
    decreases depth, 2nat, count,
{
    if count > 0 {
        lemma_elements_advance(schema, field, (count - 1) as nat, input, pos, local, root, depth);
        if let Ok((_, mid)) = decode_elements(schema, field, (count - 1) as nat, input, pos, local, root, depth) {
            lemma_element_advances(schema, field, input, mid, local, root, depth);
        }
    }
}

/// The cursor only moves forward over a whole field.
pub proof fn lemma_field_advances(
    schema: SchemaView,
    field: FieldView,
    input: Seq<u8>,
    pos: int,
    local: Seq<BindingView>,
    root: Seq<BindingView>,
    depth: nat,
)
    requires
        0 <= pos <= input.len(),
    ensures
        decode_field(schema, field, input, pos, local, root, depth) matches Ok((_, next)) ==> pos <= next
            <= input.len(),
    decreases depth, 3nat, 0nat,
{
    match field.repetition {
        None => {
            lemma_element_advances(schema, field, input, pos, local, root, depth);
        },
        Some(RepetitionView::Count(count)) => {
            if let Some(n) = eval_count(count, local, root) {
                lemma_elements_advance(schema, field, n as nat, input, pos, local, root, depth);
            }
        },
    }
}

/// The cursor only moves forward over the fields of a record.
pub proof fn lemma_prefix_advances(
    schema: SchemaView,
    fields: Seq<FieldView>,
    n: nat,
    input: Seq<u8>,
    pos: int,
    root: Seq<BindingView>,
    depth: nat,
)
    requires
        0 <= pos <= input.len(),
    ensures
        decode_prefix(schema, fields, n, input, pos, root, depth) matches Ok((_, next)) ==> pos <= next
            <= input.len(),
    decreases depth, 4nat, n,
{
    if n > 0 {
        lemma_prefix_advances(schema, fields, (n - 1) as nat, input, pos, root, depth);
        if let Ok((values, mid)) = decode_prefix(schema, fields, (n - 1) as nat, input, pos, root, depth) {
            lemma_field_advances(schema, fields[n - 1], input, mid, scope_of(fields, values), root, depth);
        }
    }
}

/// A decode consumes a part of its input: the number of bytes that a
/// decoded record occupies is at most the length of the input.
pub proof fn lemma_consumed_within_input(schema: SchemaView, input: Seq<u8>, depth: nat)
    ensures
        decode_root(schema, input, depth) matches Ok((_, consumed)) ==> 0 <= consumed <= input.len(),
{
    if let Ok(root) = root_context(schema, input, depth) {
        lemma_prefix_advances(schema, schema.items, schema.items.len(), input, 0, root, depth);
    }
}

} // verus!
