//! The trusted boundary to the merge engine.
//!
//! The facade keeps a document as a byte snapshot and asks the engine for
//! five capabilities: a fresh snapshot, one local root-key assignment, one
//! remote change application, change enumeration, and reading the merged
//! root. Each capability is a wrapper around automerge whose contract is
//! stated over a few names: whether bytes parse as a settled snapshot
//! (`snap_wf`), the change history they store (`snap_changes`), the root
//! map a set of changes determines (`doc_of_changes`), whether that
//! content reads back in full (`doc_readable`), a change's stored
//! encoding (`change_canon`), and whether a change applies on top of a
//! history (`change_applies`). `doc_of_changes` carries the engine's
//! defining guarantee: content is a function of the set of applied
//! changes alone, so applying concurrent changes in either order, or
//! twice, converges.

use vstd::prelude::*;
use automerge::transaction::Transactable;
use automerge::ReadDoc;
use automerge::ScalarValue as AmScalar;
use automerge::hydrate::Value as AmValue;
use crate::values::{DocScalar, DocValue, ValueView, value_view, value_wf};
use crate::errors::DocError;

verus! {

#[verifier::external_type_specification]
#[verifier::external_body]
pub struct ExAutoCommit(automerge::AutoCommit);

#[verifier::external_type_specification]
#[verifier::external_body]
pub struct ExObjId(automerge::ObjId);

#[verifier::external_type_specification]
#[verifier::external_body]
pub struct ExScalarValue(automerge::ScalarValue);

#[verifier::external_type_specification]
#[verifier::external_body]
pub struct ExHydrateValue(automerge::hydrate::Value);

#[verifier::external_type_specification]
#[verifier::external_body]
pub struct ExAutomergeError(automerge::AutomergeError);

/// Whether `s` parses as a document snapshot all of whose stored changes
/// are applied. Relies on automerge::AutoCommit::load and
/// get_missing_deps, both functions of the bytes alone.
pub uninterp spec fn snap_wf(s: Seq<u8>) -> bool;

/// The change history that snapshot `s` stores: each applied change as its
/// stored encoding, in the engine's enumeration order. Relies on
/// automerge::AutoCommit::get_changes and Change::raw_bytes, functions of
/// the loaded bytes alone.
pub uninterp spec fn snap_changes(s: Seq<u8>) -> Seq<Seq<u8>>;

/// The root map that a set of changes determines. This is the engine's
/// defining guarantee, which the facade relies on and never re-derives:
/// the merged content is a function of the set of applied changes alone,
/// whatever the order and with duplicates dropped. Relies on automerge's
/// convergent merge, read through ReadDoc::hydrate.
pub uninterp spec fn doc_of_changes(cs: Set<Seq<u8>>) -> Map<Seq<char>, ValueView>;

/// The stored encoding of the change that the bytes `c` encode: what the
/// history lists for it once applied. Relies on automerge::Change, whose
/// stored form is a function of the change's content (a compressed change
/// and its stored form denote the same change).
pub uninterp spec fn change_canon(c: Seq<u8>) -> Seq<u8>;

/// Whether the content a set of changes determines can be read back in
/// full: every stored scalar is of a kind this library models (nothing
/// from a future engine version). Like the content itself, this is a
/// function of the set of applied changes. Relies on ReadDoc::hydrate and
/// the scalar decoding that `engine_root_entries` performs.
pub uninterp spec fn doc_readable(cs: Set<Seq<u8>>) -> bool;

/// Whether the change that the bytes `c` encode can be applied on top of
/// the given history: the bytes parse as a change, every dependency hash
/// names a change of the history, and no already-applied change of the
/// same actor claims the same sequence number (a change already in the
/// history satisfies all three). A deterministic function of the history
/// set and the bytes. Relies on Change::from_bytes, Change::deps and the
/// duplicate-sequence check of the engine's batch application.
pub uninterp spec fn change_applies(history: Set<Seq<u8>>, c: Seq<u8>) -> bool;

/// The root map a snapshot holds: what its change history determines.
pub open spec fn snap_doc(s: Seq<u8>) -> Map<Seq<char>, ValueView> {
    doc_of_changes(snap_changes(s).to_set())
}

/// Whether a snapshot's content can be read back in full.
pub open spec fn snap_readable(s: Seq<u8>) -> bool {
    doc_readable(snap_changes(s).to_set())
}

/// Relies on automerge::AutomergeError only as an opaque failure: any
/// engine error is reported as a rejected change.
#[verifier::external_body]
fn ae<T>(r: Result<T, automerge::AutomergeError>) -> Result<T, DocError> {
    r.map_err(|_| DocError::ApplyError)
}

/// Relies on automerge::ScalarValue's constructors, one arm per scalar
/// kind. A 64-bit float is written as its eight little-endian bytes under
/// the engine's float column code (code 5 in the storage layer's value
/// metadata), which the engine decodes as the float scalar itself.
#[verifier::external_body]
fn scalar_to_engine(sc: &DocScalar) -> AmScalar {
    match sc {
        DocScalar::Int(i) => AmScalar::Int(*i),
        DocScalar::Uint(u) => AmScalar::Uint(*u),
        DocScalar::F64Bits(b) => AmScalar::Unknown { type_code: 5, bytes: b.to_le_bytes().to_vec() },
        DocScalar::Boolean(b) => AmScalar::Boolean(*b),
        DocScalar::Null => AmScalar::Null,
        DocScalar::Str(s) => AmScalar::Str(s.as_str().into()),
        DocScalar::Counter(c) => AmScalar::counter(*c),
        DocScalar::Timestamp(t) => AmScalar::Timestamp(*t),
        DocScalar::Bytes(b) => AmScalar::Bytes(b.clone()),
    }
}

/// Relies on automerge::ScalarValue, one arm per scalar kind. A float
/// comes back as its bit pattern; an unknown scalar under the float column
/// code is decoded the same way; any other unknown scalar is refused.
#[verifier::external_body]
fn scalar_from_engine(sc: AmScalar) -> Result<DocScalar, DocError> {
    match sc {
        AmScalar::Int(i) => Ok(DocScalar::Int(i)),
        AmScalar::Uint(u) => Ok(DocScalar::Uint(u)),
        AmScalar::F64(x) => Ok(DocScalar::F64Bits(x.to_bits())),
        AmScalar::Boolean(b) => Ok(DocScalar::Boolean(b)),
        AmScalar::Null => Ok(DocScalar::Null),
        AmScalar::Timestamp(t) => Ok(DocScalar::Timestamp(t)),
        other => scalar_from_engine_rest(other),
    }
}

/// Relies on automerge::ScalarValue for the remaining kinds: strings,
/// counters (read at their merged value) and byte arrays come back as
/// themselves; an unknown scalar under the float column code is decoded
/// as a float's bit pattern; any other unknown scalar is refused.
#[verifier::external_body]
fn scalar_from_engine_rest(sc: AmScalar) -> Result<DocScalar, DocError> {
    match sc {
        AmScalar::Str(s) => Ok(DocScalar::Str(String::from(s.as_str()))),
        AmScalar::Counter(c) => Ok(DocScalar::Counter(i64::from(&c))),
        AmScalar::Bytes(b) => Ok(DocScalar::Bytes(b)),
        AmScalar::Unknown { type_code: 5, bytes } if bytes.len() == 8 => Ok(DocScalar::F64Bits(u64::from_le_bytes(bytes.as_slice().try_into().unwrap()))),
        _ => Err(DocError::DeserializationError),
    }
}

/// Relies on Transactable::splice_text: writes a whole text into a fresh
/// text object.
#[verifier::external_body]
fn fill_text(doc: &mut automerge::AutoCommit, id: automerge::ObjId, t: &String) -> Result<(), DocError> {
    ae(doc.splice_text(&id, 0, 0, t.as_str()))
}

/// Converts each element in order into a fresh list object, recursing
/// through `insert_value_at`.
#[verifier::external_body]
fn fill_list(doc: &mut automerge::AutoCommit, id: automerge::ObjId, items: &Vec<DocValue>) -> Result<(), DocError> {
    items.iter().enumerate().try_for_each(|(i, x)| insert_value_at(doc, &id, i, x))
}

/// Converts each entry in order into a fresh map object, recursing
/// through `put_value_at_key`.
#[verifier::external_body]
fn fill_map(doc: &mut automerge::AutoCommit, id: automerge::ObjId, entries: &Vec<(String, DocValue)>) -> Result<(), DocError> {
    entries.iter().try_for_each(|(k, x)| put_value_at_key(doc, &id, k.as_str(), x))
}

/// Relies on Transactable::put and put_object: writes `value` under `key`
/// of the map object `obj`, one arm per kind, building nested objects
/// through the fill helpers.
#[verifier::external_body]
fn put_value_at_key(doc: &mut automerge::AutoCommit, obj: &automerge::ObjId, key: &str, value: &DocValue) -> Result<(), DocError> {
    match value {
        DocValue::Scalar(sc) => ae(doc.put(obj, key, scalar_to_engine(sc))),
        DocValue::Text(t) => { let id = ae(doc.put_object(obj, key, automerge::ObjType::Text))?; fill_text(doc, id, t) },
        DocValue::Sequence(items) => { let id = ae(doc.put_object(obj, key, automerge::ObjType::List))?; fill_list(doc, id, items) },
        DocValue::Mapping(entries) => { let id = ae(doc.put_object(obj, key, automerge::ObjType::Map))?; fill_map(doc, id, entries) },
    }
}

/// Relies on Transactable::insert and insert_object: inserts `value` at
/// position `idx` of the list object `obj`, one arm per kind, building
/// nested objects through the fill helpers.
#[verifier::external_body]
fn insert_value_at(doc: &mut automerge::AutoCommit, obj: &automerge::ObjId, idx: usize, value: &DocValue) -> Result<(), DocError> {
    match value {
        DocValue::Scalar(sc) => ae(doc.insert(obj, idx, scalar_to_engine(sc))),
        DocValue::Text(t) => { let id = ae(doc.insert_object(obj, idx, automerge::ObjType::Text))?; fill_text(doc, id, t) },
        DocValue::Sequence(items) => { let id = ae(doc.insert_object(obj, idx, automerge::ObjType::List))?; fill_list(doc, id, items) },
        DocValue::Mapping(entries) => { let id = ae(doc.insert_object(obj, idx, automerge::ObjType::Map))?; fill_map(doc, id, entries) },
    }
}

/// Relies on hydrate::Value, Map, List and Text: converts a materialised
/// engine value into the library's value model, one arm per kind,
/// recursing into containers.
#[verifier::external_body]
fn from_hydrate(v: AmValue) -> Result<DocValue, DocError> {
    match v {
        AmValue::Scalar(sc) => Ok(DocValue::Scalar(scalar_from_engine(sc)?)),
        AmValue::Text(t) => Ok(DocValue::Text(String::from(&t))),
        AmValue::List(l) => Ok(DocValue::Sequence(l.iter().map(|lv| from_hydrate(lv.value.clone())).collect::<Result<Vec<_>, _>>()?)),
        AmValue::Map(m) => Ok(DocValue::Mapping(m.iter().map(|(k, mv)| Ok((k.clone(), from_hydrate(mv.value.clone())?))).collect::<Result<Vec<_>, DocError>>()?)),
    }
}

/// Relies on automerge::AutoCommit::new and save: a fresh document snapshot
/// with no changes and an empty root map.
#[verifier::external_body]
pub(crate) fn engine_new_snapshot() -> (r: Vec<u8>)
    ensures
        snap_wf(r@),
        snap_changes(r@).len() == 0nat,
        forall |k: Seq<char>| !snap_doc(r@).dom().contains(k),
        doc_readable(snap_changes(r@).to_set()),
{
    let mut doc = automerge::AutoCommit::new();
    doc.save()
}

/// Relies on automerge::AutoCommit::load and get_missing_deps: whether the
/// bytes parse as a snapshot all of whose stored changes are applied.
#[verifier::external_body]
pub(crate) fn engine_probe(s: &Vec<u8>) -> (r: bool)
    ensures
        r == snap_wf(s@),
{
    match automerge::AutoCommit::load(s) {
        Ok(mut doc) => doc.get_missing_deps(&[]).is_empty(),
        Err(_) => false,
    }
}

/// Relies on AutoCommit::load, the Transactable writes and save: commits
/// one transaction assigning `key` at the document root. On a settled
/// snapshot, a root assignment of a well-formed value cannot fail: the
/// root map always accepts a string key, object creation and sequential
/// inserts always succeed. Usually the transaction appends exactly one
/// change, new to this history (the loaded document commits under a fresh
/// actor identity) and with ops that succeed everything applied, so its
/// effect here is exactly that assignment. The one exception: a scalar
/// put whose value equals the single op already stored is dropped by the
/// engine, the transaction is empty, and the history is unchanged — the
/// content already held the pair, so the content equation holds either
/// way. Values written from this model read back in full, so a readable
/// history stays readable.
#[verifier::external_body]
pub(crate) fn engine_set_key(s: &Vec<u8>, key: &str, value: &DocValue) -> (r: Result<
    Vec<u8>,
    DocError,
>)
    requires
        snap_wf(s@),
        value_wf(*value),
    ensures
        r is Ok,
        r is Ok ==> snap_wf(r->Ok_0@),
        r is Ok ==> doc_of_changes(snap_changes(r->Ok_0@).to_set()) == doc_of_changes(
            snap_changes(s@).to_set(),
        ).insert(key@, value_view(*value)),
        r is Ok ==> (exists |c: Seq<u8>|
            !snap_changes(s@).to_set().contains(c) && snap_changes(r->Ok_0@) == snap_changes(
                s@,
            ).push(c)) || (snap_changes(r->Ok_0@) == snap_changes(s@) && doc_of_changes(
            snap_changes(s@).to_set(),
        ).dom().contains(key@) && doc_of_changes(snap_changes(s@).to_set())[key@] == value_view(
            *value,
        )),
        r is Ok && doc_readable(snap_changes(s@).to_set()) ==> doc_readable(snap_changes(
            r->Ok_0@,
        ).to_set()),
{
    let mut doc = automerge::AutoCommit::load(s).map_err(|_| DocError::DeserializationError)?;
    put_value_at_key(&mut doc, &automerge::ROOT, key, value)?;
    Ok(doc.save())
}

/// Relies on Change::from_bytes, AutoCommit::load, apply_changes,
/// get_missing_deps and save: applies one remote change. It succeeds
/// exactly when the change applies to this history (it parses, its
/// dependencies are present, and no applied change of the same actor
/// claims its sequence number); a change already present is skipped by
/// hash. On success the stored history is the old set plus this change,
/// and the content is whatever that set determines.
#[verifier::external_body]
pub(crate) fn engine_apply_one(s: &Vec<u8>, change: &Vec<u8>) -> (r: Result<Vec<u8>, DocError>)
    requires
        snap_wf(s@),
    ensures
        (r is Ok) <==> change_applies(snap_changes(s@).to_set(), change@),
        r is Ok ==> snap_wf(r->Ok_0@) && snap_changes(r->Ok_0@).to_set() == snap_changes(
            s@,
        ).to_set().insert(change_canon(change@)),
{
    let c = automerge::Change::from_bytes(change.clone()).map_err(|_|
        DocError::DeserializationError)?;
    let mut doc = automerge::AutoCommit::load(s).map_err(|_| DocError::DeserializationError)?;
    doc.apply_changes(std::iter::once(c)).map_err(|_| DocError::ApplyError)?;
    if !doc.get_missing_deps(&[]).is_empty() {
        return Err(DocError::ApplyError);
    }
    Ok(doc.save())
}

/// Relies on AutoCommit::load, get_changes and Change::raw_bytes: the full
/// change history of the snapshot, each change as its stored encoding, in
/// the engine's enumeration order. A stored encoding is its own stored
/// form (parsing it and storing it again reproduces the same bytes — the
/// reconstruction is byte-exact, as the hash check requires), so applying
/// a listed change elsewhere adds exactly these bytes to that history.
#[verifier::external_body]
pub(crate) fn engine_list_changes(s: &Vec<u8>) -> (r: Vec<Vec<u8>>)
    requires
        snap_wf(s@),
    ensures
        r@.len() == snap_changes(s@).len(),
        forall |i: int| 0 <= i < r@.len() ==> r@[i]@ == snap_changes(s@)[i],
        forall |i: int| 0 <= i < r@.len() ==> change_canon(#[trigger] r@[i]@) == r@[i]@,
{
    let mut doc = automerge::AutoCommit::load(s).unwrap();
    doc.get_changes(&[]).iter().map(|c| c.raw_bytes().to_vec()).collect()
}

/// Relies on AutoCommit::load and save: an independent snapshot holding
/// the same history.
#[verifier::external_body]
pub(crate) fn engine_duplicate(s: &Vec<u8>) -> (r: Vec<u8>)
    requires
        snap_wf(s@),
    ensures
        snap_wf(r@),
        snap_changes(r@) == snap_changes(s@),
{
    let mut doc = automerge::AutoCommit::load(s).unwrap();
    doc.save()
}

/// Relies on AutoCommit::load and ReadDoc::hydrate at the document root:
/// the entries of the merged root map, with unique keys, converted into
/// the library's value model; together they are the content this history
/// determines. The root always hydrates as a map, so on a settled
/// snapshot the read succeeds exactly when every stored value decodes —
/// which is what `doc_readable` says of this history.
#[verifier::external_body]
pub(crate) fn engine_root_entries(s: &Vec<u8>) -> (r: Result<Vec<(String, DocValue)>, DocError>)
    requires
        snap_wf(s@),
    ensures
        (r is Ok) <==> doc_readable(snap_changes(s@).to_set()),
        r is Ok ==> {
            &&& forall |i: int, j: int|
                0 <= i < j < r->Ok_0@.len()
                    ==> (#[trigger] r->Ok_0@[i].0@) != (#[trigger] r->Ok_0@[j].0@)
            &&& forall |i: int| 0 <= i < r->Ok_0@.len() ==> value_wf((#[trigger] r->Ok_0@[i]).1)
            &&& value_view(DocValue::Mapping(r->Ok_0)) == ValueView::Mapping(doc_of_changes(
                snap_changes(s@).to_set(),
            ))
        },
{
    let doc = automerge::AutoCommit::load(s).map_err(|_| DocError::DeserializationError)?;
    let root = doc.hydrate(&automerge::ROOT, None).map_err(|_| DocError::ApplyError)?;
    match from_hydrate(root)? {
        DocValue::Mapping(entries) => Ok(entries),
        _ => Err(DocError::DeserializationError),
    }
}

} // verus!
