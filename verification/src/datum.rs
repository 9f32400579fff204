//! The in-memory form of a decoded record.

use crate::primitive::Scalar;
use vstd::prelude::*;

verus! {

/// A decoded value. Its shape follows the field it was decoded for: a
/// primitive field gives a `Scalar`, a field of a composite type a `Record`
/// with one value per field in wire order, a conditional field an
/// `Optional`, and a repeated field a `List`.
#[derive(Debug, PartialEq, Eq)]
pub enum Datum {
    Scalar(Scalar),
    Record(Vec<Datum>),
    Optional(Option<Box<Datum>>),
    List(Vec<Datum>),
}

/// The mathematical model of a [`Datum`].
pub enum DatumView {
    Scalar(Scalar),
    Record(Seq<DatumView>),
    Optional(Option<Box<DatumView>>),
    List(Seq<DatumView>),
}

/// The models of a sequence of values, in order.
pub open spec fn datum_views(items: Seq<Datum>) -> Seq<DatumView>
    decreases items, 0int,
{
    Seq::new(
        items.len(),
        |i: int|
            if 0 <= i < items.len() {
                datum_view(items[i])
            } else {
                DatumView::Optional(None)
            },
    )
}

pub open spec fn datum_view(value: Datum) -> DatumView
    decreases value, 1int,
{
    match value {
        Datum::Scalar(s) => DatumView::Scalar(s),
        Datum::Record(values) => DatumView::Record(datum_views(values@)),
        Datum::Optional(None) => DatumView::Optional(None),
        Datum::Optional(Some(inner)) => DatumView::Optional(Some(Box::new(datum_view(*inner)))),
        Datum::List(items) => DatumView::List(datum_views(items@)),
    }
}

impl View for Datum {
    type V = DatumView;

    open spec fn view(&self) -> DatumView {
        datum_view(*self)
    }
}

/// Appending a value appends its model.
pub proof fn lemma_datum_views_push(items: Seq<Datum>, value: Datum)
    ensures
        datum_views(items.push(value)) == datum_views(items).push(value@),
{
    assert(datum_views(items.push(value)) =~= datum_views(items).push(value@));
}

} // verus!
