//! The tagged value model shared by the converter and the document facade.
//!
//! A document value is a tree: scalars at the leaves, and three kinds of
//! containers (an editable text, an ordered sequence, a string-keyed map).
//! A map is carried as a vector of entries whose keys are unique; its
//! mathematical view is a `Map` from key to value, so entry order never
//! enters any contract.

use vstd::prelude::*;

verus! {

/// A scalar document value. A 64-bit float is carried by its IEEE 754 bit
/// pattern, so the model itself stays within integer arithmetic. There is
/// no 32-bit float kind: the merge engine this library binds stores only
/// 64-bit floats.
#[derive(Debug)]
pub enum DocScalar {
    Int(i64),
    Uint(u64),
    F64Bits(u64),
    Boolean(bool),
    Null,
    Str(String),
    Counter(i64),
    Timestamp(i64),
    Bytes(Vec<u8>),
}

/// A document value: a scalar, an editable text, an ordered sequence, or a
/// string-keyed map with unique keys.
#[derive(Debug)]
pub enum DocValue {
    Scalar(DocScalar),
    Text(String),
    Sequence(Vec<DocValue>),
    Mapping(Vec<(String, DocValue)>),
}

/// The mathematical form of a scalar.
pub enum ScalarView {
    Int(i64),
    Uint(u64),
    F64Bits(u64),
    Boolean(bool),
    Null,
    Str(Seq<char>),
    Counter(i64),
    Timestamp(i64),
    Bytes(Seq<u8>),
}

/// The mathematical form of a document value: maps are genuine `Map`s, so
/// two values that differ only in map entry order have equal views.
pub enum ValueView {
    Scalar(ScalarView),
    Text(Seq<char>),
    Sequence(Seq<ValueView>),
    Mapping(Map<Seq<char>, ValueView>),
}

pub open spec fn scalar_view(s: DocScalar) -> ScalarView {
    match s {
        DocScalar::Int(i) => ScalarView::Int(i),
        DocScalar::Uint(u) => ScalarView::Uint(u),
        DocScalar::F64Bits(b) => ScalarView::F64Bits(b),
        DocScalar::Boolean(b) => ScalarView::Boolean(b),
        DocScalar::Null => ScalarView::Null,
        DocScalar::Str(s) => ScalarView::Str(s@),
        DocScalar::Counter(c) => ScalarView::Counter(c),
        DocScalar::Timestamp(t) => ScalarView::Timestamp(t),
        DocScalar::Bytes(b) => ScalarView::Bytes(b@),
    }
}

/// Whether some entry of `es` carries the key `k`.
pub open spec fn entries_contain_key(es: Seq<(String, DocValue)>, k: Seq<char>) -> bool {
    exists |i: int| 0 <= i < es.len() && es[i].0@ == k
}

/// An index of an entry of `es` carrying the key `k`; unique when keys are.
pub open spec fn entry_index_for(es: Seq<(String, DocValue)>, k: Seq<char>) -> int {
    choose |i: int| 0 <= i < es.len() && es[i].0@ == k
}

/// The view of a value.
pub open spec fn value_view(v: DocValue) -> ValueView
    decreases v,
{
    match v {
        DocValue::Scalar(s) => ValueView::Scalar(scalar_view(s)),
        DocValue::Text(t) => ValueView::Text(t@),
        DocValue::Sequence(items) => ValueView::Sequence(
            Seq::new(items@.len(), |i: int| if 0 <= i < items@.len() {
                value_view(items@[i])
            } else {
                ValueView::Scalar(ScalarView::Null)
            }),
        ),
        DocValue::Mapping(entries) => ValueView::Mapping(
            Map::new(
                |k: Seq<char>| entries_contain_key(entries@, k),
                |k: Seq<char>| if entries_contain_key(entries@, k) {
                    value_view(entries@[entry_index_for(entries@, k)].1)
                } else {
                    ValueView::Scalar(ScalarView::Null)
                },
            ),
        ),
    }
}

impl View for DocValue {
    type V = ValueView;

    open spec fn view(&self) -> ValueView {
        value_view(*self)
    }
}

impl View for DocScalar {
    type V = ScalarView;

    open spec fn view(&self) -> ScalarView {
        scalar_view(*self)
    }
}

/// Well-formedness of a value: every map in the tree has pairwise distinct
/// keys. Constructors of this library only build well-formed values.
pub open spec fn value_wf(v: DocValue) -> bool
    decreases v,
{
    match v {
        DocValue::Scalar(_) => true,
        DocValue::Text(_) => true,
        DocValue::Sequence(items) => forall |i: int|
            0 <= i < items@.len() ==> value_wf(#[trigger] items@[i]),
        DocValue::Mapping(entries) => {
            &&& forall |i: int, j: int|
                0 <= i < j < entries@.len() ==> (#[trigger] entries@[i].0@) != (#[trigger] entries@[j].0@)
            &&& forall |i: int|
                0 <= i < entries@.len() ==> value_wf((#[trigger] entries@[i]).1)
        },
    }
}

/// What the view of a map value says entry by entry, once its keys are
/// unique: the domain is the key set, and each entry supplies the value of
/// its own key.
pub proof fn lemma_mapping_view(entries: Vec<(String, DocValue)>)
    requires
        forall |i: int, j: int|
            0 <= i < j < entries@.len() ==> (#[trigger] entries@[i].0@) != (#[trigger] entries@[j].0@),
    ensures
        value_view(DocValue::Mapping(entries)) is Mapping,
        forall |k: Seq<char>|
            value_view(DocValue::Mapping(entries))->Mapping_0.dom().contains(k)
                <==> entries_contain_key(entries@, k),
        forall |i: int|
            0 <= i < entries@.len() ==> value_view(DocValue::Mapping(entries))->Mapping_0[
                (#[trigger] entries@[i]).0@] == value_view(entries@[i].1),
{
    let es = entries@;
    let m = value_view(DocValue::Mapping(entries))->Mapping_0;
    assert forall |i: int| 0 <= i < es.len() implies m[(#[trigger] es[i]).0@] == value_view(
        es[i].1,
    ) by {
        let k = es[i].0@;
        assert(entries_contain_key(es, k));
        let j = entry_index_for(es, k);
        assert(0 <= j < es.len() && es[j].0@ == k);
        if i < j {
            assert(es[i].0@ != es[j].0@);
        } else if j < i {
            assert(es[j].0@ != es[i].0@);
        }
        assert(j == i);
    }
}

/// Whether a value view is free of byte-array scalars, the one scalar kind
/// the host conversion declines.
pub open spec fn bytes_free(v: ValueView) -> bool
    decreases v,
{
    match v {
        ValueView::Scalar(s) => !(s is Bytes),
        ValueView::Text(_) => true,
        ValueView::Sequence(items) => forall |i: int|
            0 <= i < items.len() ==> bytes_free(#[trigger] items[i]),
        ValueView::Mapping(m) => forall |k: Seq<char>|
            m.dom().contains(k) ==> bytes_free(#[trigger] m[k]),
    }
}

/// Rewrites every string scalar into a text value, leaving the rest alone.
/// Converting a host value never produces a string scalar, so values made by
/// this library are fixed points of this function.
pub open spec fn text_normal(v: ValueView) -> ValueView
    decreases v,
{
    match v {
        ValueView::Scalar(ScalarView::Str(s)) => ValueView::Text(s),
        ValueView::Scalar(s) => ValueView::Scalar(s),
        ValueView::Text(t) => ValueView::Text(t),
        ValueView::Sequence(items) => ValueView::Sequence(
            Seq::new(items.len(), |i: int| if 0 <= i < items.len() {
                text_normal(items[i])
            } else {
                ValueView::Scalar(ScalarView::Null)
            }),
        ),
        ValueView::Mapping(m) => ValueView::Mapping(
            Map::new(
                |k: Seq<char>| m.dom().contains(k),
                |k: Seq<char>| if m.dom().contains(k) {
                    text_normal(m[k])
                } else {
                    ValueView::Scalar(ScalarView::Null)
                },
            ),
        ),
    }
}

} // verus!
