//! The bytes that a decode passes over without reading them.
//!
//! An absent field that reserves its width leaves a gap in the input. What
//! stands in such a gap has no part in the result: two inputs of one length
//! that differ only inside the gaps of one of them decode to the same
//! record, over the same number of bytes.

use crate::expr::{eval_count, eval_flag, BindingView};
use crate::laws::{
    lemma_context_ignores_scope, lemma_element_advances, lemma_elements_advance,
    lemma_field_advances, lemma_prefix_advances, lemma_prefix_of_prefix,
};
use crate::schema::{
    context_boundary, lemma_context_boundary, type_fields, DataTypeView, FieldView, RepetitionView, SchemaView,
};
use crate::wire::{
    decode_base, decode_element, decode_elements, decode_field, decode_prefix, decode_root, reserved_width,
    root_context, scope_of,
};
use vstd::prelude::*;

verus! {

/// Whether the byte at offset `i` is passed over while the base of a field
/// is read at `pos`.
pub open spec fn base_passes(
    schema: SchemaView,
    data_type: DataTypeView,
    input: Seq<u8>,
    pos: int,
    root: Seq<BindingView>,
    depth: nat,
    i: int,
) -> bool
    decreases depth, 0nat, 0nat,
{
    match data_type {
        DataTypeView::Primitive(_) => false,
        DataTypeView::Composite(name) => depth > 0 && prefix_passes(
            schema,
            type_fields(schema, name),
            type_fields(schema, name).len(),
            input,
            pos,
            root,
            (depth - 1) as nat,
            i,
        ),
    }
}

/// Whether the byte at offset `i` is passed over while one element of a
/// field is read at `pos`: it lies in the reserved width of an absent
/// element, or is passed over inside a present one.
pub open spec fn element_passes(
    schema: SchemaView,
    field: FieldView,
    input: Seq<u8>,
    pos: int,
    local: Seq<BindingView>,
    root: Seq<BindingView>,
    depth: nat,
    i: int,
) -> bool
    decreases depth, 1nat, 0nat,
{
    match field.condition {
        None => base_passes(schema, field.data_type, input, pos, root, depth, i),
        Some(condition) => match eval_flag(condition.expression, local, root) {
            Some(true) => base_passes(schema, field.data_type, input, pos, root, depth, i),
            Some(false) => condition.advance_if_false && pos <= i < pos + reserved_width(schema, field.data_type),
            None => false,
        },
    }
}

/// Whether the byte at offset `i` is passed over while `count` elements
/// are read from `pos` on: by the element that it belongs to.
pub open spec fn elements_pass(
    schema: SchemaView,
    field: FieldView,
    count: nat,
    input: Seq<u8>,
    pos: int,
    local: Seq<BindingView>,
    root: Seq<BindingView>,
    depth: nat,
    i: int,
) -> bool
    decreases depth, 2nat, count,
{
    if count == 0 {
        false
    } else {
        match decode_elements(schema, field, (count - 1) as nat, input, pos, local, root, depth) {
            Ok((_, mid)) => if i < mid {
                elements_pass(schema, field, (count - 1) as nat, input, pos, local, root, depth, i)
            } else {
                element_passes(schema, field, input, mid, local, root, depth, i)
            },
            Err(_) => false,
        }
    }
}

/// Whether the byte at offset `i` is passed over while a whole field is
/// read at `pos`.
pub open spec fn field_passes(
    schema: SchemaView,
    field: FieldView,
    input: Seq<u8>,
    pos: int,
    local: Seq<BindingView>,
    root: Seq<BindingView>,
    depth: nat,
    i: int,
) -> bool
    decreases depth, 3nat, 0nat,
{
    match field.repetition {
        None => element_passes(schema, field, input, pos, local, root, depth, i),
        Some(RepetitionView::Count(count)) => match eval_count(count, local, root) {
            Some(n) => elements_pass(schema, field, n as nat, input, pos, local, root, depth, i),
            None => false,
        },
    }
}

/// Whether the byte at offset `i` is passed over while the first `n`
/// fields of a record are read from `pos` on: by the field that it belongs
/// to.
pub open spec fn prefix_passes(
    schema: SchemaView,
    fields: Seq<FieldView>,
    n: nat,
    input: Seq<u8>,
    pos: int,
    root: Seq<BindingView>,
    depth: nat,
    i: int,
) -> bool
    decreases depth, 4nat, n,
{
    if n == 0 {
        false
    } else {
        match decode_prefix(schema, fields, (n - 1) as nat, input, pos, root, depth) {
            Ok((values, mid)) => if i < mid {
                prefix_passes(schema, fields, (n - 1) as nat, input, pos, root, depth, i)
            } else {
                field_passes(schema, fields[n - 1], input, mid, scope_of(fields, values), root, depth, i)
            },
            Err(_) => false,
        }
    }
}

/// Whether the byte at offset `i` is passed over by the decode of a root
/// record from `input`.
pub open spec fn passed_over(schema: SchemaView, input: Seq<u8>, depth: nat, i: int) -> bool {
    match root_context(schema, input, depth) {
        Ok(root) => prefix_passes(schema, schema.items, schema.items.len(), input, 0, root, depth, i),
        Err(_) => false,
    }
}

/// Two inputs of one length that hold the same bytes from `from` up to
/// `to`, but for those that `gap` leaves out.
pub open spec fn same_but(a: Seq<u8>, b: Seq<u8>, from: int, to: int, gap: spec_fn(int) -> bool) -> bool {
    &&& a.len() == b.len()
    &&& forall|i: int| from <= i < to && !gap(i) ==> a[i] == #[trigger] b[i]
}

/// The base of a field is read alike from two inputs that differ only in
/// bytes that the read passes over.
pub proof fn lemma_base_ignores_gaps(
    schema: SchemaView,
    data_type: DataTypeView,
    a: Seq<u8>,
    b: Seq<u8>,
    pos: int,
    root: Seq<BindingView>,
    depth: nat,
)
    requires
        0 <= pos <= a.len(),
        decode_base(schema, data_type, a, pos, root, depth) is Ok,
        same_but(
            a,
            b,
            pos,
            decode_base(schema, data_type, a, pos, root, depth)->Ok_0.1,
            |i: int| base_passes(schema, data_type, a, pos, root, depth, i),
        ),
    ensures
        decode_base(schema, data_type, b, pos, root, depth) == decode_base(schema, data_type, a, pos, root, depth),
    decreases depth, 0nat, 0nat,
{
    match data_type {
        DataTypeView::Primitive(kind) => {
            assert(a.subrange(pos, pos + kind.width()) =~= b.subrange(pos, pos + kind.width()));
        },
        DataTypeView::Composite(name) => {
            let fields = type_fields(schema, name);
            lemma_prefix_ignores_gaps(schema, fields, fields.len(), a, b, pos, root, (depth - 1) as nat);
        },
    }
}

/// One element of a field is read alike from two inputs that differ only
/// in bytes that the read passes over.
pub proof fn lemma_element_ignores_gaps(
    schema: SchemaView,
    field: FieldView,
    a: Seq<u8>,
    b: Seq<u8>,
    pos: int,
    local: Seq<BindingView>,
    root: Seq<BindingView>,
    depth: nat,
)
    requires
        0 <= pos <= a.len(),
        decode_element(schema, field, a, pos, local, root, depth) is Ok,
        same_but(
            a,
            b,
            pos,
            decode_element(schema, field, a, pos, local, root, depth)->Ok_0.1,
            |i: int| element_passes(schema, field, a, pos, local, root, depth, i),
        ),
    ensures
        decode_element(schema, field, b, pos, local, root, depth) == decode_element(
            schema,
            field,
            a,
            pos,
            local,
            root,
            depth,
        ),
    decreases depth, 1nat, 0nat,
{
    let reads = match field.condition {
        None => true,
        Some(condition) => eval_flag(condition.expression, local, root) == Some(true),
    };
    if reads {
        assert(same_but(
            a,
            b,
            pos,
            decode_base(schema, field.data_type, a, pos, root, depth)->Ok_0.1,
            |i: int| base_passes(schema, field.data_type, a, pos, root, depth, i),
        ));
        lemma_base_ignores_gaps(schema, field.data_type, a, b, pos, root, depth);
    }
}

/// A run of elements is read alike from two inputs that differ only in
/// bytes that the read passes over.
pub proof fn lemma_elements_ignore_gaps(
    schema: SchemaView,
    field: FieldView,
    count: nat,
    a: Seq<u8>,
    b: Seq<u8>,
    pos: int,
    local: Seq<BindingView>,
    root: Seq<BindingView>,
    depth: nat,
)
    requires
        0 <= pos <= a.len(),
        decode_elements(schema, field, count, a, pos, local, root, depth) is Ok,
        same_but(
            a,
            b,
            pos,
            decode_elements(schema, field, count, a, pos, local, root, depth)->Ok_0.1,
            |i: int| elements_pass(schema, field, count, a, pos, local, root, depth, i),
        ),
    ensures
        decode_elements(schema, field, count, b, pos, local, root, depth) == decode_elements(
            schema,
            field,
            count,
            a,
            pos,
            local,
            root,
            depth,
        ),
    decreases depth, 2nat, count,
{
    if count > 0 {
        let shorter = (count - 1) as nat;
        let (_, mid) = decode_elements(schema, field, shorter, a, pos, local, root, depth)->Ok_0;
        let (_, end) = decode_element(schema, field, a, mid, local, root, depth)->Ok_0;
        lemma_elements_advance(schema, field, shorter, a, pos, local, root, depth);
        lemma_element_advances(schema, field, a, mid, local, root, depth);
        assert(same_but(
            a,
            b,
            pos,
            mid,
            |i: int| elements_pass(schema, field, shorter, a, pos, local, root, depth, i),
        ));
        lemma_elements_ignore_gaps(schema, field, shorter, a, b, pos, local, root, depth);
        assert(same_but(a, b, mid, end, |i: int| element_passes(schema, field, a, mid, local, root, depth, i)));
        lemma_element_ignores_gaps(schema, field, a, b, mid, local, root, depth);
    }
}

/// A whole field is read alike from two inputs that differ only in bytes
/// that the read passes over.
pub proof fn lemma_field_ignores_gaps(
    schema: SchemaView,
    field: FieldView,
    a: Seq<u8>,
    b: Seq<u8>,
    pos: int,
    local: Seq<BindingView>,
    root: Seq<BindingView>,
    depth: nat,
)
    requires
        0 <= pos <= a.len(),
        decode_field(schema, field, a, pos, local, root, depth) is Ok,
        same_but(
            a,
            b,
            pos,
            decode_field(schema, field, a, pos, local, root, depth)->Ok_0.1,
            |i: int| field_passes(schema, field, a, pos, local, root, depth, i),
        ),
    ensures
        decode_field(schema, field, b, pos, local, root, depth) == decode_field(
            schema,
            field,
            a,
            pos,
            local,
            root,
            depth,
        ),
    decreases depth, 3nat, 0nat,
{
    match field.repetition {
        None => {
            assert(same_but(
                a,
                b,
                pos,
                decode_element(schema, field, a, pos, local, root, depth)->Ok_0.1,
                |i: int| element_passes(schema, field, a, pos, local, root, depth, i),
            ));
            lemma_element_ignores_gaps(schema, field, a, b, pos, local, root, depth);
        },
        Some(RepetitionView::Count(count)) => {
            let n = eval_count(count, local, root)->Some_0 as nat;
            assert(same_but(
                a,
                b,
                pos,
                decode_elements(schema, field, n, a, pos, local, root, depth)->Ok_0.1,
                |i: int| elements_pass(schema, field, n, a, pos, local, root, depth, i),
            ));
            lemma_elements_ignore_gaps(schema, field, n, a, b, pos, local, root, depth);
        },
    }
}

/// The first `n` fields of a record are read alike from two inputs that
/// differ only in bytes that the read passes over.
pub proof fn lemma_prefix_ignores_gaps(
    schema: SchemaView,
    fields: Seq<FieldView>,
    n: nat,
    a: Seq<u8>,
    b: Seq<u8>,
    pos: int,
    root: Seq<BindingView>,
    depth: nat,
)
    requires
        0 <= pos <= a.len(),
        decode_prefix(schema, fields, n, a, pos, root, depth) is Ok,
        same_but(
            a,
            b,
            pos,
            decode_prefix(schema, fields, n, a, pos, root, depth)->Ok_0.1,
            |i: int| prefix_passes(schema, fields, n, a, pos, root, depth, i),
        ),
    ensures
        decode_prefix(schema, fields, n, b, pos, root, depth) == decode_prefix(schema, fields, n, a, pos, root, depth),
    decreases depth, 4nat, n,
{
    if n > 0 {
        let shorter = (n - 1) as nat;
        let (values, mid) = decode_prefix(schema, fields, shorter, a, pos, root, depth)->Ok_0;
        let local = scope_of(fields, values);
        let (_, end) = decode_field(schema, fields[n - 1], a, mid, local, root, depth)->Ok_0;
        lemma_prefix_advances(schema, fields, shorter, a, pos, root, depth);
        lemma_field_advances(schema, fields[n - 1], a, mid, local, root, depth);
        assert(same_but(a, b, pos, mid, |i: int| prefix_passes(schema, fields, shorter, a, pos, root, depth, i)));
        lemma_prefix_ignores_gaps(schema, fields, shorter, a, b, pos, root, depth);
        assert(same_but(
            a,
            b,
            mid,
            end,
            |i: int| field_passes(schema, fields[n - 1], a, mid, local, root, depth, i),
        ));
        lemma_field_ignores_gaps(schema, fields[n - 1], a, b, mid, local, root, depth);
    }
}

/// What stands in a reserved gap has no part in the result: two inputs of
/// one length that differ only in bytes that the decode of the first
/// passes over decode to the same record, over the same number of bytes.
pub proof fn lemma_gaps_are_ignored(schema: SchemaView, a: Seq<u8>, b: Seq<u8>, depth: nat)
    requires
        decode_root(schema, a, depth) is Ok,
        same_but(a, b, 0, decode_root(schema, a, depth)->Ok_0.1, |i: int| passed_over(schema, a, depth, i)),
    ensures
        decode_root(schema, b, depth) == decode_root(schema, a, depth),
{
    let items = schema.items;
    let k = context_boundary(items);
    let none = Seq::<BindingView>::empty();
    lemma_context_boundary(items);
    let root = root_context(schema, a, depth)->Ok_0;
    let end = decode_prefix(schema, items, items.len(), a, 0, root, depth)->Ok_0.1;
    assert(same_but(a, b, 0, end, |i: int| prefix_passes(schema, items, items.len(), a, 0, root, depth, i)));
    lemma_prefix_ignores_gaps(schema, items, items.len(), a, b, 0, root, depth);
    // The context is made of the first values of the record, in both decodes.
    lemma_prefix_of_prefix(schema, items, k, items.len(), a, 0, root, depth);
    lemma_context_ignores_scope(schema, items, k, a, 0, none, root, depth);
    lemma_prefix_of_prefix(schema, items, k, items.len(), b, 0, root, depth);
    lemma_context_ignores_scope(schema, items, k, b, 0, none, root, depth);
}

} // verus!
