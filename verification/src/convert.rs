//! The bidirectional value conversion layer.
//!
//! Host values are classified by a fixed precedence: integers become integer
//! scalars, floats become 64-bit float scalars, strings become editable
//! texts, ordered collections become sequences, and mappings become
//! string-keyed maps. A mapping with a non-string key is reported as
//! `UnsupportedKeyType`; a byte array or an unrecognised host value as
//! `UnsupportedValueType`. Neither is fatal: the caller decides.
//!
//! The return direction is total: every stored value, scalars of all kinds
//! included, has a host rendering, and the rendering converts back to the
//! value it came from (string scalars re-enter as texts, which is the one
//! collapse, stated by `text_normal`).

use vstd::prelude::*;
use crate::values::{DocScalar, DocValue, ScalarView, ValueView, scalar_view, value_view,
    value_wf, entries_contain_key, entry_index_for, bytes_free, text_normal, lemma_mapping_view};
use crate::host::{HostValue, HostView, host_view};

verus! {

/// Why a host value could not be converted.
#[derive(Clone, Copy, PartialEq, Eq, Structural, Debug)]
pub enum ConvError {
    /// A mapping carries a key that is not a string.
    UnsupportedKeyType,
    /// A value matches no supported kind (a byte array or an opaque value).
    UnsupportedValueType,
}

/// The conversion of one host value into the document value model:
/// the specification that `to_crdt_value` implements.
pub open spec fn host_to_value(h: HostView) -> Result<ValueView, ConvError>
    decreases h,
{
    match h {
        HostView::Int(i) => Ok(ValueView::Scalar(ScalarView::Int(i))),
        HostView::Uint(u) => Ok(ValueView::Scalar(ScalarView::Uint(u))),
        HostView::Float(b) => Ok(ValueView::Scalar(ScalarView::F64Bits(b))),
        HostView::Bool(b) => Ok(ValueView::Scalar(ScalarView::Boolean(b))),
        HostView::Null => Ok(ValueView::Scalar(ScalarView::Null)),
        HostView::Str(s) => Ok(ValueView::Text(s)),
        HostView::Counter(c) => Ok(ValueView::Scalar(ScalarView::Counter(c))),
        HostView::Timestamp(t) => Ok(ValueView::Scalar(ScalarView::Timestamp(t))),
        HostView::Bytes(_) => Err(ConvError::UnsupportedValueType),
        HostView::List(items) => match host_list_to_values(items) {
            Ok(vs) => Ok(ValueView::Sequence(vs)),
            Err(e) => Err(e),
        },
        HostView::Dict(entries) => match host_dict_to_map(entries) {
            Ok(m) => Ok(ValueView::Mapping(m)),
            Err(e) => Err(e),
        },
        HostView::Opaque => Err(ConvError::UnsupportedValueType),
    }
}

/// Converts the elements of an ordered collection in order, stopping at the
/// first failure.
pub open spec fn host_list_to_values(items: Seq<HostView>) -> Result<Seq<ValueView>, ConvError>
    decreases items,
{
    if items.len() == 0 {
        Ok(Seq::empty())
    } else {
        match host_to_value(items[0]) {
            Ok(v) => match host_list_to_values(items.subrange(1, items.len() as int)) {
                Ok(rest) => Ok(seq![v] + rest),
                Err(e) => Err(e),
            },
            Err(e) => Err(e),
        }
    }
}

/// Whether some entry of a host mapping carries the string key `k`.
pub open spec fn host_dict_has_key(entries: Seq<(HostView, HostView)>, k: Seq<char>) -> bool {
    exists |j: int| 0 <= j < entries.len() && (#[trigger] entries[j]).0 == HostView::Str(k)
}

/// Converts the entries of a mapping in order, stopping at the first
/// failure; when a key occurs twice, the earliest entry wins.
pub open spec fn host_dict_to_map(entries: Seq<(HostView, HostView)>) -> Result<
    Map<Seq<char>, ValueView>,
    ConvError,
>
    decreases entries,
{
    if entries.len() == 0 {
        Ok(Map::empty())
    } else {
        match entries[0].0 {
            HostView::Str(k) => match host_to_value(entries[0].1) {
                Ok(v) => match host_dict_to_map(entries.subrange(1, entries.len() as int)) {
                    Ok(m) => Ok(m.insert(k, v)),
                    Err(e) => Err(e),
                },
                Err(e) => Err(e),
            },
            _ => Err(ConvError::UnsupportedKeyType),
        }
    }
}

/// How `host_list_to_values` relates to the element conversions: it succeeds
/// exactly when every element converts, the results line up pointwise, and a
/// first failing element decides the error.
pub proof fn lemma_host_list_conv(s: Seq<HostView>)
    ensures
        (host_list_to_values(s) is Ok) <==> (forall |i: int|
            0 <= i < s.len() ==> host_to_value(#[trigger] s[i]) is Ok),
        host_list_to_values(s) is Ok ==> host_list_to_values(s)->Ok_0.len() == s.len(),
        host_list_to_values(s) is Ok ==> forall |i: int|
            0 <= i < s.len() ==> host_list_to_values(s)->Ok_0[i] == host_to_value(
                #[trigger] s[i],
            )->Ok_0,
        forall |i: int|
            (0 <= i < s.len() && host_to_value(#[trigger] s[i]) is Err && (forall |j: int|
                0 <= j < i ==> host_to_value(#[trigger] s[j]) is Ok)) ==> host_list_to_values(s)
                == Result::<Seq<ValueView>, ConvError>::Err(host_to_value(s[i])->Err_0),
    decreases s.len(),
{
    if s.len() == 0 {
    } else {
        let sub = s.subrange(1, s.len() as int);
        lemma_host_list_conv(sub);
        assert forall |i: int| 1 <= i < s.len() implies s[i] == sub[i - 1] by {}
        if host_to_value(s[0]) is Ok && host_list_to_values(sub) is Ok {
            let vs = host_list_to_values(s)->Ok_0;
            let rest = host_list_to_values(sub)->Ok_0;
            assert(vs == seq![host_to_value(s[0])->Ok_0] + rest);
            assert forall |i: int| 0 <= i < s.len() implies vs[i] == host_to_value(s[i])->Ok_0 by {
                if i >= 1 {
                    assert(vs[i] == rest[i - 1]);
                    assert(sub[i - 1] == s[i]);
                }
            }
        }
    }
}

/// How `host_dict_to_map` relates to the entry conversions: it succeeds
/// exactly when every key is a string and every value converts; the domain
/// is the key set; the earliest entry for a key supplies its value; and a
/// first failing entry decides the error.
pub proof fn lemma_host_dict_conv(s: Seq<(HostView, HostView)>)
    ensures
        (host_dict_to_map(s) is Ok) <==> (forall |i: int|
            0 <= i < s.len() ==> ((#[trigger] s[i]).0 is Str && host_to_value(s[i].1) is Ok)),
        host_dict_to_map(s) is Ok ==> forall |k: Seq<char>|
            host_dict_to_map(s)->Ok_0.dom().contains(k) <==> (exists |i: int|
                0 <= i < s.len() && (#[trigger] s[i]).0 == HostView::Str(k)),
        host_dict_to_map(s) is Ok ==> forall |i: int|
            (0 <= i < s.len() && (forall |j: int|
                0 <= j < i ==> (#[trigger] s[j]).0 != s[i].0)) ==> host_dict_to_map(s)->Ok_0[
                (#[trigger] s[i]).0->Str_0] == host_to_value(s[i].1)->Ok_0,
        host_dict_to_map(s) is Ok ==> forall |k: Seq<char>|
            host_dict_to_map(s)->Ok_0.dom().contains(k) ==> exists |i: int|
                0 <= i < s.len() && (#[trigger] s[i]).0 == HostView::Str(k) && host_dict_to_map(
                    s,
                )->Ok_0[k] == host_to_value(s[i].1)->Ok_0,
        forall |i: int|
            (0 <= i < s.len() && !((#[trigger] s[i]).0 is Str && host_to_value(s[i].1) is Ok)
                && (forall |j: int|
                0 <= j < i ==> ((#[trigger] s[j]).0 is Str && host_to_value(s[j].1) is Ok)))
                ==> host_dict_to_map(s) == Result::<Map<Seq<char>, ValueView>, ConvError>::Err(
                if s[i].0 is Str {
                    host_to_value(s[i].1)->Err_0
                } else {
                    ConvError::UnsupportedKeyType
                },
            ),
    decreases s.len(),
{
    if s.len() == 0 {
    } else {
        let sub = s.subrange(1, s.len() as int);
        lemma_host_dict_conv(sub);
        assert forall |i: int| 1 <= i < s.len() implies s[i] == sub[i - 1] by {}
        if s[0].0 is Str && host_to_value(s[0].1) is Ok && host_dict_to_map(sub) is Ok {
            let m = host_dict_to_map(s)->Ok_0;
            let msub = host_dict_to_map(sub)->Ok_0;
            let k0 = s[0].0->Str_0;
            assert(m == msub.insert(k0, host_to_value(s[0].1)->Ok_0));
            assert forall |k: Seq<char>| m.dom().contains(k) implies exists |i: int|
                0 <= i < s.len() && (#[trigger] s[i]).0 == HostView::Str(k) && m[k]
                    == host_to_value(s[i].1)->Ok_0 by {
                if k == k0 {
                    assert(0 <= 0 < s.len() && s[0].0 == HostView::Str(k) && m[k] == host_to_value(
                        s[0].1,
                    )->Ok_0);
                } else {
                    assert(msub.dom().contains(k));
                    let i = choose |i: int|
                        0 <= i < sub.len() && (#[trigger] sub[i]).0 == HostView::Str(k) && msub[k]
                            == host_to_value(sub[i].1)->Ok_0;
                    assert(s[i + 1] == sub[i]);
                    assert(m[k] == msub[k]);
                    assert(0 <= i + 1 < s.len() && s[i + 1].0 == HostView::Str(k) && m[k]
                        == host_to_value(s[i + 1].1)->Ok_0);
                }
            }
            assert forall |i: int|
                (0 <= i < s.len() && (forall |j: int|
                    0 <= j < i ==> (#[trigger] s[j]).0 != s[i].0)) implies m[s[i].0->Str_0]
                    == host_to_value(s[i].1)->Ok_0 by {
                if i == 0 {
                } else {
                    assert(s[0].0 != s[i].0);
                    assert(s[i].0 is Str);
                    assert(s[i].0->Str_0 != k0);
                    assert forall |j: int| 0 <= j < i - 1 implies (#[trigger] sub[j]).0 != sub[i - 1].0 by {
                        assert(sub[j] == s[j + 1]);
                    }
                    assert(msub[sub[i - 1].0->Str_0] == host_to_value(sub[i - 1].1)->Ok_0);
                }
            }
        }
    }
}

/// A converted host value is already in normal form: it holds no string
/// scalar (strings convert to texts) and no byte-array scalar (byte arrays
/// do not convert), so `text_normal` leaves it unchanged.
pub proof fn lemma_host_to_value_normal(h: HostView)
    ensures
        host_to_value(h) is Ok ==> text_normal(host_to_value(h)->Ok_0) == host_to_value(h)->Ok_0,
        host_to_value(h) is Ok ==> bytes_free(host_to_value(h)->Ok_0),
    decreases h,
{
    match h {
        HostView::List(items) => {
            lemma_host_list_conv(items);
            if host_to_value(h) is Ok {
                let vs = host_list_to_values(items)->Ok_0;
                assert forall |i: int| 0 <= i < vs.len() implies text_normal(#[trigger] vs[i])
                    == vs[i] && bytes_free(vs[i]) by {
                    lemma_host_to_value_normal(items[i]);
                    assert(vs[i] == host_to_value(items[i])->Ok_0);
                }
                assert(text_normal(ValueView::Sequence(vs))->Sequence_0 =~= vs);
                assert(text_normal(host_to_value(h)->Ok_0) == host_to_value(h)->Ok_0);
            }
        },
        HostView::Dict(entries) => {
            lemma_host_dict_conv(entries);
            if host_to_value(h) is Ok {
                let m = host_dict_to_map(entries)->Ok_0;
                assert forall |k: Seq<char>| m.dom().contains(k) implies text_normal(
                    #[trigger] m[k],
                ) == m[k] && bytes_free(m[k]) by {
                    let i = choose |i: int|
                        0 <= i < entries.len() && (#[trigger] entries[i]).0 == HostView::Str(k)
                            && m[k] == host_to_value(entries[i].1)->Ok_0;
                    lemma_host_to_value_normal(entries[i].1);
                }
                assert(text_normal(ValueView::Mapping(m))->Mapping_0 =~= m);
                assert(text_normal(host_to_value(h)->Ok_0) == host_to_value(h)->Ok_0);
            }
        },
        _ => {},
    }
}

/// Round trip: when a host value converts, and the converted document value
/// is rendered back into a host value the way `from_crdt_value` promises,
/// the rendering converts to exactly the same document value. Up to map
/// entry order, the conversion pair loses nothing.
pub proof fn lemma_conversion_round_trip(h: HostView, h2: HostView)
    requires
        host_to_value(h) is Ok,
        host_to_value(h2) == Ok::<ValueView, ConvError>(text_normal(host_to_value(h)->Ok_0)),
    ensures
        host_to_value(h2) == host_to_value(h),
{
    lemma_host_to_value_normal(h);
}

/// The host rendering of a scalar: every kind renders as itself, except a
/// string scalar, which renders as a host string.
pub open spec fn render_scalar(s: DocScalar) -> HostView {
    match s {
        DocScalar::Int(i) => HostView::Int(i),
        DocScalar::Uint(u) => HostView::Uint(u),
        DocScalar::F64Bits(b) => HostView::Float(b),
        DocScalar::Boolean(b) => HostView::Bool(b),
        DocScalar::Null => HostView::Null,
        DocScalar::Str(s) => HostView::Str(s@),
        DocScalar::Counter(c) => HostView::Counter(c),
        DocScalar::Timestamp(t) => HostView::Timestamp(t),
        DocScalar::Bytes(b) => HostView::Bytes(b@),
    }
}

/// The host rendering of a document value, node for node: texts and string
/// scalars render as host strings, sequences in order, maps as
/// dictionaries in entry order with their keys as host strings. This is
/// the full graph of `from_crdt_value`: it determines the output on every
/// input, byte-array scalars included.
pub open spec fn render_doc_value(v: DocValue) -> HostView
    decreases v,
{
    match v {
        DocValue::Scalar(s) => render_scalar(s),
        DocValue::Text(t) => HostView::Str(t@),
        DocValue::Sequence(items) => HostView::List(
            Seq::new(items@.len(), |i: int| if 0 <= i < items@.len() {
                render_doc_value(items@[i])
            } else {
                HostView::Null
            }),
        ),
        DocValue::Mapping(entries) => HostView::Dict(
            Seq::new(entries@.len(), |i: int| if 0 <= i < entries@.len() {
                (HostView::Str(entries@[i].0@), render_doc_value(entries@[i].1))
            } else {
                (HostView::Null, HostView::Null)
            }),
        ),
    }
}

/// Whether some entry of `es` already carries the key `k`.
pub fn entries_have_key(es: &Vec<(String, DocValue)>, k: &String) -> (r: bool)
    ensures
        r == entries_contain_key(es@, k@),
{
    let mut i: usize = 0;
    while i < es.len()
        invariant
            i <= es@.len(),
            forall |j: int| 0 <= j < i ==> (#[trigger] es@[j].0@) != k@,
        decreases es@.len() - i,
    {
        if es[i].0 == *k {
            return true;
        }
        i = i + 1;
    }
    false
}

/// Converts a dynamic host value into the document value model, by the fixed
/// precedence that `host_to_value` states: it returns exactly the value that
/// specification names, or exactly the error it names.
#[verifier::loop_isolation(false)]
pub fn to_crdt_value(h: &HostValue) -> (r: Result<DocValue, ConvError>)
    ensures
        match host_to_value(h@) {
            Ok(v) => r is Ok && value_view(r->Ok_0) == v && value_wf(r->Ok_0),
            Err(e) => r is Err && r->Err_0 == e,
        },
    decreases h,
{
    match h {
        HostValue::Int(i) => Ok(DocValue::Scalar(DocScalar::Int(*i))),
        HostValue::Uint(u) => Ok(DocValue::Scalar(DocScalar::Uint(*u))),
        HostValue::Float(b) => Ok(DocValue::Scalar(DocScalar::F64Bits(*b))),
        HostValue::Bool(b) => Ok(DocValue::Scalar(DocScalar::Boolean(*b))),
        HostValue::Null => Ok(DocValue::Scalar(DocScalar::Null)),
        HostValue::Str(s) => Ok(DocValue::Text(s.clone())),
        HostValue::Counter(c) => Ok(DocValue::Scalar(DocScalar::Counter(*c))),
        HostValue::Timestamp(t) => Ok(DocValue::Scalar(DocScalar::Timestamp(*t))),
        HostValue::Bytes(_) => Err(ConvError::UnsupportedValueType),
        HostValue::Opaque => Err(ConvError::UnsupportedValueType),
        HostValue::List(items) => {
            let ghost hs = host_view(*h)->List_0;
            proof {
                assert(hs.len() == items@.len());
            }
            let mut out: Vec<DocValue> = Vec::new();
            let mut idx: usize = 0;
            while idx < items.len()
                invariant
                    idx <= items@.len(),
                    out@.len() == idx,
                    hs.len() == items@.len(),
                    forall |i: int| 0 <= i < items@.len() ==> #[trigger] hs[i] == host_view(
                        items@[i],
                    ),
                    forall |i: int| 0 <= i < idx ==> host_to_value(#[trigger] hs[i]) is Ok,
                    forall |i: int| 0 <= i < idx ==> value_view(#[trigger] out@[i]) == host_to_value(
                        hs[i],
                    )->Ok_0,
                    forall |i: int| 0 <= i < idx ==> value_wf(#[trigger] out@[i]),
                decreases items@.len() - idx,
            {
                match to_crdt_value(&items[idx]) {
                    Ok(v) => {
                        out.push(v);
                    },
                    Err(e) => {
                        proof {
                            lemma_host_list_conv(hs);
                            assert(hs[idx as int] == host_view(items@[idx as int]));
                            assert(host_to_value(hs[idx as int]) is Err);
                            assert(host_list_to_values(hs) == Result::<
                                Seq<ValueView>,
                                ConvError,
                            >::Err(host_to_value(hs[idx as int])->Err_0));
                        }
                        return Err(e);
                    },
                }
                idx = idx + 1;
            }
            proof {
                lemma_host_list_conv(hs);
                assert(host_list_to_values(hs) is Ok);
                assert(host_list_to_values(hs)->Ok_0 =~= value_view(
                    DocValue::Sequence(out),
                )->Sequence_0);
            }
            Ok(DocValue::Sequence(out))
        },
        HostValue::Dict(entries) => {
            let ghost hs = host_view(*h)->Dict_0;
            proof {
                assert(hs.len() == entries@.len());
            }
            let mut out: Vec<(String, DocValue)> = Vec::new();
            let mut idx: usize = 0;
            while idx < entries.len()
                invariant
                    idx <= entries@.len(),
                    hs.len() == entries@.len(),
                    forall |i: int| 0 <= i < entries@.len() ==> #[trigger] hs[i] == (
                        host_view(entries@[i].0),
                        host_view(entries@[i].1),
                    ),
                    forall |i: int| 0 <= i < idx ==> (#[trigger] hs[i]).0 is Str && host_to_value(
                        hs[i].1,
                    ) is Ok,
                    forall |k: Seq<char>| entries_contain_key(out@, k) <==> (exists |i: int|
                        0 <= i < idx && (#[trigger] hs[i]).0 == HostView::Str(k)),
                    forall |a: int, b: int|
                        0 <= a < b < out@.len() ==> (#[trigger] out@[a].0@) != (#[trigger] out@[b].0@),
                    forall |j: int| 0 <= j < out@.len() ==> exists |i: int|
                        0 <= i < idx && (#[trigger] hs[i]).0 == HostView::Str((#[trigger] out@[j]).0@)
                            && (forall |l: int| 0 <= l < i ==> (#[trigger] hs[l]).0 != hs[i].0)
                            && value_view(out@[j].1) == host_to_value(hs[i].1)->Ok_0
                            && value_wf(out@[j].1),
                decreases entries@.len() - idx,
            {
                let entry = &entries[idx];
                match &entry.0 {
                    HostValue::Str(k) => {
                        match to_crdt_value(&entry.1) {
                            Ok(v) => {
                                if !entries_have_key(&out, k) {
                                    let ghost old_out = out@;
                                    out.push((k.clone(), v));
                                    proof {
                                        let ki = k@;
                                        let last = old_out.len() as int;
                                        assert(out@[last].0@ == ki);
                                        assert(hs[idx as int].0 == HostView::Str(ki));
                                        assert forall |kk: Seq<char>| entries_contain_key(out@, kk)
                                            implies (exists |i: int|
                                            0 <= i < idx + 1 && (#[trigger] hs[i]).0
                                                == HostView::Str(kk)) by {
                                            let j = choose |j: int|
                                                0 <= j < out@.len() && out@[j].0@ == kk;
                                            if j < old_out.len() {
                                                assert(old_out[j].0@ == kk);
                                                assert(entries_contain_key(old_out, kk));
                                                let i = choose |i: int|
                                                    0 <= i < idx && (#[trigger] hs[i]).0
                                                        == HostView::Str(kk);
                                                assert(0 <= i < idx + 1 && hs[i].0
                                                    == HostView::Str(kk));
                                            } else {
                                                assert(hs[idx as int].0 == HostView::Str(kk));
                                            }
                                        }
                                        assert forall |kk: Seq<char>| (exists |i: int|
                                            0 <= i < idx + 1 && (#[trigger] hs[i]).0
                                                == HostView::Str(kk)) implies entries_contain_key(
                                            out@,
                                            kk,
                                        ) by {
                                            let i = choose |i: int|
                                                0 <= i < idx + 1 && (#[trigger] hs[i]).0
                                                    == HostView::Str(kk);
                                            if i < idx {
                                                assert(entries_contain_key(old_out, kk));
                                                let j = choose |j: int|
                                                    0 <= j < old_out.len() && old_out[j].0@ == kk;
                                                assert(out@[j].0@ == kk);
                                            } else {
                                                assert(kk == ki);
                                                assert(out@[last].0@ == kk);
                                            }
                                        }
                                        assert forall |a: int| 0 <= a < old_out.len() implies (
                                        #[trigger] out@[a].0@) != ki by {
                                            if out@[a].0@ == ki {
                                                assert(old_out[a].0@ == ki);
                                                assert(entries_contain_key(old_out, ki));
                                            }
                                        }
                                        assert forall |l: int| 0 <= l < idx implies (
                                        #[trigger] hs[l]).0 != hs[idx as int].0 by {
                                            if hs[l].0 == hs[idx as int].0 {
                                                assert(hs[l].0 == HostView::Str(ki));
                                                assert(entries_contain_key(old_out, ki));
                                            }
                                        }
                                        assert forall |j: int| 0 <= j < out@.len() implies exists |i: int|
                                            0 <= i < idx + 1 && (#[trigger] hs[i]).0
                                                == HostView::Str((#[trigger] out@[j]).0@)
                                                && (forall |l: int|
                                                0 <= l < i ==> (#[trigger] hs[l]).0 != hs[i].0)
                                                && value_view(out@[j].1) == host_to_value(
                                                hs[i].1,
                                            )->Ok_0 && value_wf(out@[j].1) by {
                                            if j < old_out.len() {
                                                assert(out@[j] == old_out[j]);
                                                let i = choose |i: int|
                                                    0 <= i < idx && (#[trigger] hs[i]).0
                                                        == HostView::Str(old_out[j].0@) && (
                                                    forall |l: int|
                                                        0 <= l < i ==> (#[trigger] hs[l]).0
                                                            != hs[i].0) && value_view(old_out[j].1)
                                                        == host_to_value(hs[i].1)->Ok_0
                                                        && value_wf(old_out[j].1);
                                                assert(0 <= i < idx + 1 && hs[i].0
                                                    == HostView::Str(out@[j].0@) && (forall |l: int|
                                                    0 <= l < i ==> (#[trigger] hs[l]).0 != hs[i].0)
                                                    && value_view(out@[j].1) == host_to_value(
                                                    hs[i].1,
                                                )->Ok_0 && value_wf(out@[j].1));
                                            } else {
                                                let i = idx as int;
                                                assert(hs[i].0 == HostView::Str(out@[j].0@));
                                                assert(value_view(out@[j].1) == host_to_value(
                                                    hs[i].1,
                                                )->Ok_0);
                                                assert(value_wf(out@[j].1));
                                                assert(0 <= i < idx + 1 && hs[i].0
                                                    == HostView::Str(out@[j].0@) && (forall |l: int|
                                                    0 <= l < i ==> (#[trigger] hs[l]).0 != hs[i].0)
                                                    && value_view(out@[j].1) == host_to_value(
                                                    hs[i].1,
                                                )->Ok_0 && value_wf(out@[j].1));
                                            }
                                        }
                                    }
                                } else {
                                    proof {
                                        let ki = k@;
                                        assert(entries_contain_key(out@, ki));
                                        assert(hs[idx as int].0 == HostView::Str(ki));
                                        assert forall |kk: Seq<char>| entries_contain_key(out@, kk)
                                            implies (exists |i: int|
                                            0 <= i < idx + 1 && (#[trigger] hs[i]).0
                                                == HostView::Str(kk)) by {
                                            let i = choose |i: int|
                                                0 <= i < idx && (#[trigger] hs[i]).0
                                                    == HostView::Str(kk);
                                            assert(0 <= i < idx + 1 && hs[i].0 == HostView::Str(
                                                kk,
                                            ));
                                        }
                                        assert forall |kk: Seq<char>| (exists |i: int|
                                            0 <= i < idx + 1 && (#[trigger] hs[i]).0
                                                == HostView::Str(kk)) implies entries_contain_key(
                                            out@,
                                            kk,
                                        ) by {
                                            let i = choose |i: int|
                                                0 <= i < idx + 1 && (#[trigger] hs[i]).0
                                                    == HostView::Str(kk);
                                            if i == idx as int {
                                                assert(kk == ki);
                                            }
                                        }
                                        assert forall |j: int| 0 <= j < out@.len() implies exists |i: int|
                                            0 <= i < idx + 1 && (#[trigger] hs[i]).0
                                                == HostView::Str((#[trigger] out@[j]).0@)
                                                && (forall |l: int|
                                                0 <= l < i ==> (#[trigger] hs[l]).0 != hs[i].0)
                                                && value_view(out@[j].1) == host_to_value(
                                                hs[i].1,
                                            )->Ok_0 && value_wf(out@[j].1) by {
                                            let i = choose |i: int|
                                                0 <= i < idx && (#[trigger] hs[i]).0
                                                    == HostView::Str((#[trigger] out@[j]).0@) && (
                                                forall |l: int|
                                                    0 <= l < i ==> (#[trigger] hs[l]).0 != hs[i].0)
                                                    && value_view(out@[j].1) == host_to_value(
                                                    hs[i].1,
                                                )->Ok_0 && value_wf(out@[j].1);
                                            assert(0 <= i < idx + 1 && hs[i].0 == HostView::Str(
                                                out@[j].0@,
                                            ) && (forall |l: int|
                                                0 <= l < i ==> (#[trigger] hs[l]).0 != hs[i].0)
                                                && value_view(out@[j].1) == host_to_value(
                                                hs[i].1,
                                            )->Ok_0 && value_wf(out@[j].1));
                                        }
                                    }
                                }
                            },
                            Err(e) => {
                                proof {
                                    lemma_host_dict_conv(hs);
                                    assert(hs[idx as int].0 is Str);
                                }
                                return Err(e);
                            },
                        }
                    },
                    _ => {
                        proof {
                            lemma_host_dict_conv(hs);
                            assert(!((#[trigger] hs[idx as int]).0 is Str));
                        }
                        return Err(ConvError::UnsupportedKeyType);
                    },
                }
                idx = idx + 1;
            }
            proof {
                lemma_host_dict_conv(hs);
                assert(host_dict_to_map(hs) is Ok);
                let dict_map = host_dict_to_map(hs)->Ok_0;
                lemma_mapping_view(out);
                let m = value_view(DocValue::Mapping(out))->Mapping_0;
                assert forall |k: Seq<char>| m.dom().contains(k) implies dict_map.dom().contains(
                    k,
                ) && m[k] == dict_map[k] by {
                    let j = choose |j: int| 0 <= j < out@.len() && out@[j].0@ == k;
                    assert(entries_contain_key(out@, k));
                    assert(0 <= j < out@.len() && out@[j].0@ == k);
                    let i = choose |i: int|
                        0 <= i < idx && (#[trigger] hs[i]).0 == HostView::Str(out@[j].0@)
                            && (forall |l: int| 0 <= l < i ==> (#[trigger] hs[l]).0 != hs[i].0)
                            && value_view(out@[j].1) == host_to_value(hs[i].1)->Ok_0
                            && value_wf(out@[j].1);
                    assert(dict_map[hs[i].0->Str_0] == host_to_value(hs[i].1)->Ok_0);
                    assert(m[k] == value_view(out@[j].1));
                }
                assert forall |k: Seq<char>| dict_map.dom().contains(k) implies m.dom().contains(
                    k,
                ) by {
                    let i = choose |i: int| 0 <= i < hs.len() && (#[trigger] hs[i]).0
                        == HostView::Str(k);
                    assert(entries_contain_key(out@, k));
                }
                assert(m =~= dict_map);
            }
            Ok(DocValue::Mapping(out))
        },
    }
}

/// Converts a stored document value back into a dynamic host value. Every
/// scalar kind has a real host rendering: integers, unsigned integers,
/// floats (as their bit pattern), booleans, null, counters, timestamps and
/// byte arrays come back as themselves, and both texts and string scalars
/// come back as host strings. For values free of byte-array scalars the
/// rendering converts back to exactly the value it came from, with string
/// scalars re-entering as texts (`text_normal`); a byte array comes back as
/// a host byte array, which the forward conversion declines by design.
#[verifier::loop_isolation(false)]
pub fn from_crdt_value(v: &DocValue) -> (r: HostValue)
    requires
        value_wf(*v),
    ensures
        host_view(r) == render_doc_value(*v),
        bytes_free(value_view(*v)) ==> host_to_value(host_view(r)) == Ok::<ValueView, ConvError>(
            text_normal(value_view(*v)),
        ),
    decreases v,
{
    match v {
        DocValue::Scalar(s) => match s {
            DocScalar::Int(i) => HostValue::Int(*i),
            DocScalar::Uint(u) => HostValue::Uint(*u),
            DocScalar::F64Bits(b) => HostValue::Float(*b),
            DocScalar::Boolean(b) => HostValue::Bool(*b),
            DocScalar::Null => HostValue::Null,
            DocScalar::Str(t) => HostValue::Str(t.clone()),
            DocScalar::Counter(c) => HostValue::Counter(*c),
            DocScalar::Timestamp(t) => HostValue::Timestamp(*t),
            DocScalar::Bytes(b) => HostValue::Bytes(b.clone()),
        },
        DocValue::Text(t) => HostValue::Str(t.clone()),
        DocValue::Sequence(items) => {
            let ghost vs = value_view(*v)->Sequence_0;
            proof {
                assert(vs.len() == items@.len());
                assert forall |i: int| 0 <= i < items@.len() implies #[trigger] vs[i] == value_view(
                    items@[i],
                ) by {}
            }
            let mut out: Vec<HostValue> = Vec::new();
            let mut idx: usize = 0;
            while idx < items.len()
                invariant
                    idx <= items@.len(),
                    out@.len() == idx,
                    forall |j: int| 0 <= j < idx ==> host_view(#[trigger] out@[j])
                        == render_doc_value(items@[j]),
                    forall |j: int| 0 <= j < idx ==> bytes_free(value_view(#[trigger] items@[j]))
                        ==> host_to_value(host_view(#[trigger] out@[j])) == Ok::<
                        ValueView,
                        ConvError,
                    >(text_normal(value_view(items@[j]))),
                decreases items@.len() - idx,
            {
                let hv = from_crdt_value(&items[idx]);
                out.push(hv);
                idx = idx + 1;
            }
            proof {
                assert(host_view(HostValue::List(out))->List_0 =~= render_doc_value(
                    *v,
                )->List_0);
                assert(host_view(HostValue::List(out)) == render_doc_value(*v));
                if bytes_free(value_view(*v)) {
                    let hvs = host_view(HostValue::List(out))->List_0;
                    assert forall |i: int| 0 <= i < out@.len() implies #[trigger] hvs[i]
                        == host_view(out@[i]) by {}
                    assert forall |i: int| 0 <= i < vs.len() implies bytes_free(
                        #[trigger] vs[i],
                    ) by {}
                    lemma_host_list_conv(hvs);
                    assert forall |i: int| 0 <= i < hvs.len() implies host_to_value(
                        #[trigger] hvs[i],
                    ) is Ok by {
                        assert(bytes_free(vs[i]));
                    }
                    assert(host_list_to_values(hvs) is Ok);
                    assert forall |i: int| 0 <= i < hvs.len() implies host_list_to_values(
                        hvs,
                    )->Ok_0[i] == text_normal(value_view(*v))->Sequence_0[i] by {
                        assert(host_list_to_values(hvs)->Ok_0[i] == host_to_value(hvs[i])->Ok_0);
                        assert(hvs[i] == host_view(out@[i]));
                        assert(bytes_free(value_view(items@[i])));
                        assert(host_to_value(host_view(out@[i])) == Ok::<ValueView, ConvError>(
                            text_normal(value_view(items@[i])),
                        ));
                        assert(text_normal(value_view(*v))->Sequence_0[i] == text_normal(vs[i]));
                    }
                    assert(host_list_to_values(hvs)->Ok_0 =~= text_normal(
                        value_view(*v),
                    )->Sequence_0);
                    assert(host_to_value(host_view(HostValue::List(out))) == Ok::<
                        ValueView,
                        ConvError,
                    >(text_normal(value_view(*v))));
                }
            }
            HostValue::List(out)
        },
        DocValue::Mapping(entries) => {
            let ghost m = value_view(*v)->Mapping_0;
            proof {
                lemma_mapping_view(*entries);
            }
            let mut out: Vec<(HostValue, HostValue)> = Vec::new();
            let mut idx: usize = 0;
            while idx < entries.len()
                invariant
                    idx <= entries@.len(),
                    out@.len() == idx,
                    forall |j: int| 0 <= j < idx ==> host_view((#[trigger] out@[j]).0)
                        == HostView::Str(entries@[j].0@),
                    forall |j: int| 0 <= j < idx ==> host_view((#[trigger] out@[j]).1)
                        == render_doc_value(entries@[j].1),
                    forall |j: int| 0 <= j < idx ==> bytes_free(value_view(
                        (#[trigger] entries@[j]).1,
                    )) ==> host_to_value(host_view(out@[j].1)) == Ok::<ValueView, ConvError>(
                        text_normal(value_view(entries@[j].1)),
                    ),
                decreases entries@.len() - idx,
            {
                let entry = &entries[idx];
                let hv = from_crdt_value(&entry.1);
                out.push((HostValue::Str(entry.0.clone()), hv));
                idx = idx + 1;
            }
            proof {
                assert(host_view(HostValue::Dict(out))->Dict_0 =~= render_doc_value(
                    *v,
                )->Dict_0);
                assert(host_view(HostValue::Dict(out)) == render_doc_value(*v));
                if bytes_free(value_view(*v)) {
                    let hes = host_view(HostValue::Dict(out))->Dict_0;
                    assert forall |i: int| 0 <= i < out@.len() implies #[trigger] hes[i] == (
                        host_view(out@[i].0),
                        host_view(out@[i].1),
                    ) by {}
                    assert forall |i: int| 0 <= i < entries@.len() implies bytes_free(value_view(
                        (#[trigger] entries@[i]).1,
                    )) by {
                        assert(m.dom().contains(entries@[i].0@));
                        assert(m[entries@[i].0@] == value_view(entries@[i].1));
                    }
                    lemma_host_dict_conv(hes);
                    assert forall |i: int| 0 <= i < hes.len() implies (#[trigger] hes[i]).0 is Str
                        && host_to_value(hes[i].1) is Ok by {
                        assert(hes[i].0 == HostView::Str(entries@[i].0@));
                        assert(bytes_free(value_view(entries@[i].1)));
                    }
                    assert(host_dict_to_map(hes) is Ok);
                    let dm = host_dict_to_map(hes)->Ok_0;
                    let tm = text_normal(value_view(*v))->Mapping_0;
                    assert forall |k: Seq<char>| dm.dom().contains(k) implies tm.dom().contains(k)
                        && dm[k] == tm[k] by {
                        let i = choose |i: int|
                            0 <= i < hes.len() && (#[trigger] hes[i]).0 == HostView::Str(k);
                        assert(entries@[i].0@ == k);
                        assert(entries_contain_key(entries@, k));
                        assert(m.dom().contains(k));
                        assert forall |j: int| 0 <= j < i implies (#[trigger] hes[j]).0 != hes[i].0
                            by {
                            assert(hes[j].0 == HostView::Str(entries@[j].0@));
                            assert(entries@[j].0@ != entries@[i].0@);
                        }
                        assert(dm[k] == host_to_value(hes[i].1)->Ok_0);
                        assert(m[k] == value_view(entries@[i].1));
                        assert(bytes_free(value_view(entries@[i].1)));
                        assert(host_to_value(host_view(out@[i].1)) == Ok::<ValueView, ConvError>(
                            text_normal(value_view(entries@[i].1)),
                        ));
                    }
                    assert forall |k: Seq<char>| tm.dom().contains(k) implies dm.dom().contains(
                        k,
                    ) by {
                        assert(m.dom().contains(k));
                        assert(entries_contain_key(entries@, k));
                        let i = choose |i: int| 0 <= i < entries@.len() && entries@[i].0@ == k;
                        assert(hes[i].0 == HostView::Str(k));
                    }
                    assert(dm =~= tm);
                    assert(host_to_value(host_view(HostValue::Dict(out))) == Ok::<
                        ValueView,
                        ConvError,
                    >(text_normal(value_view(*v))));
                }
            }
            HostValue::Dict(out)
        },
    }
}

} // verus!
