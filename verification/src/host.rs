//! The dynamic host value tree.
//!
//! A host environment hands the library untyped values: numbers, strings,
//! byte arrays, ordered collections, and mappings whose keys are themselves
//! host values. This module models that universe as a plain tree. `Opaque`
//! stands for a host value of a kind the library does not recognise at all;
//! it is what the conversion layer reports as unsupported.

use vstd::prelude::*;

verus! {

/// A dynamic host value. Floats are carried as their IEEE 754 bit pattern;
/// the host boundary converts them to and from native floats outside the
/// verified library.
#[derive(Debug)]
pub enum HostValue {
    Int(i64),
    Uint(u64),
    Float(u64),
    Bool(bool),
    Null,
    Str(String),
    Counter(i64),
    Timestamp(i64),
    Bytes(Vec<u8>),
    List(Vec<HostValue>),
    Dict(Vec<(HostValue, HostValue)>),
    Opaque,
}

/// The mathematical form of a host value. A dictionary stays a sequence of
/// pairs, since its keys need not be strings.
pub enum HostView {
    Int(i64),
    Uint(u64),
    Float(u64),
    Bool(bool),
    Null,
    Str(Seq<char>),
    Counter(i64),
    Timestamp(i64),
    Bytes(Seq<u8>),
    List(Seq<HostView>),
    Dict(Seq<(HostView, HostView)>),
    Opaque,
}

/// The view of a host value.
pub open spec fn host_view(h: HostValue) -> HostView
    decreases h,
{
    match h {
        HostValue::Int(i) => HostView::Int(i),
        HostValue::Uint(u) => HostView::Uint(u),
        HostValue::Float(b) => HostView::Float(b),
        HostValue::Bool(b) => HostView::Bool(b),
        HostValue::Null => HostView::Null,
        HostValue::Str(s) => HostView::Str(s@),
        HostValue::Counter(c) => HostView::Counter(c),
        HostValue::Timestamp(t) => HostView::Timestamp(t),
        HostValue::Bytes(b) => HostView::Bytes(b@),
        HostValue::List(items) => HostView::List(
            Seq::new(items@.len(), |i: int| if 0 <= i < items@.len() {
                host_view(items@[i])
            } else {
                HostView::Null
            }),
        ),
        HostValue::Dict(entries) => HostView::Dict(
            Seq::new(entries@.len(), |i: int| if 0 <= i < entries@.len() {
                (host_view(entries@[i].0), host_view(entries@[i].1))
            } else {
                (HostView::Null, HostView::Null)
            }),
        ),
        HostValue::Opaque => HostView::Opaque,
    }
}

/// The views of a sequence of host key-value pairs.
pub open spec fn host_pairs_view(entries: Seq<(HostValue, HostValue)>) -> Seq<(HostView, HostView)> {
    Seq::new(entries.len(), |i: int| if 0 <= i < entries.len() {
        (host_view(entries[i].0), host_view(entries[i].1))
    } else {
        (HostView::Null, HostView::Null)
    })
}

impl View for HostValue {
    type V = HostView;

    open spec fn view(&self) -> HostView {
        host_view(*self)
    }
}

} // verus!
