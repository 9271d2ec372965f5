//! The document facade.
//!
//! A document is a byte snapshot: every operation loads it, acts, and
//! yields a new snapshot or a query result, so all state lives in the
//! caller-held bytes. `HashmapDocument` wraps one snapshot and offers
//! creation from a host mapping, per-key mutation, remote-change
//! application, change enumeration, duplication, and flattening back into
//! a host mapping. The free functions offer the same operations on bare
//! snapshots, plus a two-field document constructor.
//!
//! Contracts speak of two observations of a snapshot: its change history
//! (`history`) and the root content that history determines (`doc`).
//! Everything else follows from the engine's guarantee that content is a
//! function of the set of applied changes.

use vstd::prelude::*;
use crate::values::{DocValue, DocScalar, ScalarView, ValueView, value_view, value_wf,
    entries_contain_key, bytes_free, text_normal, lemma_mapping_view};
use crate::host::{HostValue, HostView, host_view, host_pairs_view};
use crate::convert::{ConvError, host_to_value, host_dict_to_map, to_crdt_value, from_crdt_value,
    lemma_host_dict_conv, lemma_host_to_value_normal, host_dict_has_key, render_doc_value};
use crate::errors::{DocError, doc_error_of_conv, conv_to_doc_error};
use crate::engine::{snap_wf, snap_changes, doc_of_changes, change_canon, snap_doc, doc_readable,
    change_applies, engine_new_snapshot, engine_probe, engine_set_key, engine_apply_one,
    engine_list_changes, engine_duplicate, engine_root_entries};

verus! {

/// The set of stored encodings of a sequence of change byte strings.
pub open spec fn canon_set(rs: Seq<Seq<u8>>) -> Set<Seq<u8>> {
    Set::new(|c: Seq<u8>| exists |i: int| 0 <= i < rs.len() && c == change_canon(rs[i]))
}

/// Whether each change in `rs`, taken in order, applies to the history it
/// meets: the first to `history`, the next to `history` joined with the
/// first, and so on.
pub open spec fn changes_apply(history: Set<Seq<u8>>, rs: Seq<Seq<u8>>) -> bool
    decreases rs.len(),
{
    rs.len() == 0 || (change_applies(history, rs[0]) && changes_apply(
        history.insert(change_canon(rs[0])),
        rs.subrange(1, rs.len() as int),
    ))
}

/// One replicated document, held as a serialized snapshot. All mutation
/// replaces the snapshot with a new one; two documents never share bytes.
pub struct HashmapDocument {
    serialized_backend: Vec<u8>,
}

impl HashmapDocument {
    /// The snapshot this document wraps.
    pub closed spec fn snapshot(&self) -> Seq<u8> {
        self.serialized_backend@
    }

    /// Every document wraps a snapshot that parses and is settled.
    #[verifier::type_invariant]
    pub closed spec fn wf(&self) -> bool {
        snap_wf(self.snapshot())
    }

    /// The document's change history.
    pub open spec fn history(&self) -> Seq<Seq<u8>> {
        snap_changes(self.snapshot())
    }

    /// The document's merged root content.
    pub open spec fn doc(&self) -> Map<Seq<char>, ValueView> {
        snap_doc(self.snapshot())
    }

    /// Whether the document's content can be read back in full: every
    /// stored value is of a kind this library models. A function of the
    /// change history, so every history-preserving operation preserves it.
    pub open spec fn readable(&self) -> bool {
        doc_readable(self.history().to_set())
    }

    /// Creates a document from a host mapping, converting each entry and
    /// issuing one local change per distinct field; an empty mapping
    /// issues none. A conversion failure is reported as such, exactly as
    /// the conversion specification decides it; on success the content is
    /// exactly the converted mapping.
    #[verifier::loop_isolation(false)]
    pub fn new(initial: Vec<(HostValue, HostValue)>) -> (r: Result<HashmapDocument, DocError>)
        ensures
            host_dict_to_map(host_pairs_view(initial@)) is Err ==> r is Err && r->Err_0
                == doc_error_of_conv(host_dict_to_map(host_pairs_view(initial@))->Err_0),
            r is Ok ==> host_dict_to_map(host_pairs_view(initial@)) is Ok && r->Ok_0.doc()
                == host_dict_to_map(host_pairs_view(initial@))->Ok_0,
            r is Ok ==> r->Ok_0.doc().dom().finite() && r->Ok_0.history().len()
                == r->Ok_0.doc().dom().len(),
            host_dict_to_map(host_pairs_view(initial@)) is Ok ==> r is Ok,
            r is Ok ==> r->Ok_0.readable(),
    {
        let ghost hpv = host_pairs_view(initial@);
        let wrapped = HostValue::Dict(initial);
        proof {
            assert(host_view(wrapped)->Dict_0 =~= hpv);
        }
        match to_crdt_value(&wrapped) {
            Err(e) => Err(conv_to_doc_error(e)),
            Ok(v) => {
                let ghost m = host_dict_to_map(hpv)->Ok_0;
                proof {
                    assert(value_view(v) == ValueView::Mapping(m));
                }
                match v {
                    DocValue::Mapping(es) => {
                        proof {
                            lemma_mapping_view(es);
                        }
                        let mut snap = engine_new_snapshot();
                        proof {
                            assert(snap_doc(snap@) =~= Map::<Seq<char>, ValueView>::empty());
                        }
                        let mut i: usize = 0;
                        while i < es.len()
                            invariant
                                i <= es@.len(),
                                snap_wf(snap@),
                                doc_readable(snap_changes(snap@).to_set()),
                                snap_changes(snap@).len() == i,
                                snap_doc(snap@) =~= m.restrict(
                                    Set::new(|k: Seq<char>| exists |j: int|
                                        0 <= j < i && (#[trigger] es@[j]).0@ == k),
                                ),
                            decreases es@.len() - i,
                        {
                            let ghost pre = snap@;
                            match engine_set_key(&snap, es[i].0.as_str(), &es[i].1) {
                                Ok(ns) => {
                                    snap = ns;
                                },
                                Err(e) => {
                                    return Err(e);
                                },
                            }
                            proof {
                                let ki = es@[i as int].0@;
                                assert(entries_contain_key(es@, ki));
                                assert(m.dom().contains(ki));
                                assert(value_view(es@[i as int].1) == m[ki]);
                                if snap_doc(pre).dom().contains(ki) {
                                    let j = choose |j: int|
                                        0 <= j < i && (#[trigger] es@[j]).0@ == ki;
                                    assert(es@[j].0@ == es@[i as int].0@);
                                    assert(false);
                                }
                                assert(snap_changes(snap@).len() == i + 1);
                                assert(snap_doc(snap@) =~= m.restrict(
                                    Set::new(|k: Seq<char>| exists |j: int|
                                        0 <= j < i + 1 && (#[trigger] es@[j]).0@ == k),
                                ));
                            }
                            i = i + 1;
                        }
                        proof {
                            assert forall |k: Seq<char>| m.dom().contains(k) implies Set::new(
                                |k2: Seq<char>| exists |j: int|
                                    0 <= j < es@.len() && (#[trigger] es@[j]).0@ == k2,
                            ).contains(k) by {
                                assert(entries_contain_key(es@, k));
                            }
                            assert(snap_doc(snap@) =~= m);
                            let ks = Seq::new(es@.len(), |j: int| if 0 <= j < es@.len() {
                                es@[j].0@
                            } else {
                                Seq::<char>::empty()
                            });
                            assert(ks.no_duplicates());
                            ks.unique_seq_to_set();
                            assert forall |k: Seq<char>| m.dom().contains(k) implies ks.to_set()
                                .contains(k) by {
                                assert(entries_contain_key(es@, k));
                                let j = choose |j: int| 0 <= j < es@.len() && es@[j].0@ == k;
                                assert(ks[j] == k);
                                assert(ks.contains(k));
                            }
                            assert forall |k: Seq<char>| ks.to_set().contains(k) implies m.dom()
                                .contains(k) by {
                                let j = choose |j: int| 0 <= j < ks.len() && ks[j] == k;
                                assert(es@[j].0@ == k);
                                assert(entries_contain_key(es@, k));
                            }
                            assert(m.dom() =~= ks.to_set());
                        }
                        Ok(HashmapDocument { serialized_backend: snap })
                    },
                    _ => {
                        proof {
                            assert(false);
                        }
                        Err(DocError::UnsupportedValueType)
                    },
                }
            },
        }
    }

    /// An independent snapshot of the same content: a value copy through a
    /// save and load cycle, never an alias. The copy's history, and so
    /// everything observable, equals the original's.
    pub fn copy(&self) -> (r: HashmapDocument)
        ensures
            r.history() == self.history(),
            r.doc() == self.doc(),
            r.readable() == self.readable(),
    {
        proof {
            use_type_invariant(self);
        }
        HashmapDocument { serialized_backend: engine_duplicate(&self.serialized_backend) }
    }

    /// Applies remote changes in the order supplied. It succeeds exactly
    /// when each change applies to the history it meets (it parses, its
    /// dependencies are present, no applied change of the same actor
    /// claims its sequence number); then the history becomes the old set
    /// of changes joined with the supplied ones in their stored form, so
    /// applying a change a second time does not change the document. On
    /// failure the document is unchanged — no partial application.
    #[verifier::loop_isolation(false)]
    pub fn apply_changes(&mut self, raw_changes: &Vec<Vec<u8>>) -> (r: Result<(), DocError>)
        ensures
            (r is Ok) <==> changes_apply(
                old(self).history().to_set(),
                raw_changes.deep_view(),
            ),
            r is Err ==> final(self).snapshot() == old(self).snapshot(),
            r is Ok ==> final(self).history().to_set() == old(self).history().to_set().union(
                canon_set(raw_changes.deep_view()),
            ),
    {
        proof {
            use_type_invariant(&*self);
        }
        let ghost rs = raw_changes.deep_view();
        let mut snap = engine_duplicate(&self.serialized_backend);
        proof {
            assert(canon_set(rs.subrange(0, 0)) =~= Set::<Seq<u8>>::empty());
            assert(snap_changes(snap@).to_set() =~= old(self).history().to_set().union(
                canon_set(rs.subrange(0, 0)),
            ));
            assert(rs.subrange(0, rs.len() as int) =~= rs);
        }
        let mut i: usize = 0;
        while i < raw_changes.len()
            invariant
                i <= raw_changes@.len(),
                rs == raw_changes.deep_view(),
                snap_wf(snap@),
                snap_changes(snap@).to_set() == old(self).history().to_set().union(
                    canon_set(rs.subrange(0, i as int)),
                ),
                changes_apply(old(self).history().to_set(), rs) <==> changes_apply(
                    snap_changes(snap@).to_set(),
                    rs.subrange(i as int, rs.len() as int),
                ),
            decreases raw_changes@.len() - i,
        {
            let ghost pre_set = snap_changes(snap@).to_set();
            let ghost suffix = rs.subrange(i as int, rs.len() as int);
            proof {
                assert(rs[i as int] =~= raw_changes@[i as int]@);
                assert(suffix[0] == rs[i as int]);
                assert(suffix.subrange(1, suffix.len() as int) =~= rs.subrange(
                    i + 1,
                    rs.len() as int,
                ));
            }
            match engine_apply_one(&snap, &raw_changes[i]) {
                Ok(ns) => {
                    snap = ns;
                },
                Err(e) => {
                    proof {
                        assert(!change_applies(pre_set, rs[i as int]));
                        assert(!changes_apply(pre_set, suffix));
                    }
                    return Err(e);
                },
            }
            proof {
                assert(change_applies(pre_set, rs[i as int]));
                assert(snap_changes(snap@).to_set() == pre_set.insert(
                    change_canon(rs[i as int]),
                ));
                assert(changes_apply(pre_set, suffix) <==> changes_apply(
                    snap_changes(snap@).to_set(),
                    rs.subrange(i + 1, rs.len() as int),
                ));
                assert(rs[i as int] =~= raw_changes@[i as int]@);
                let before = old(self).history().to_set().union(canon_set(rs.subrange(0, i as int)));
                let target = old(self).history().to_set().union(
                    canon_set(rs.subrange(0, i + 1)),
                );
                assert forall |c: Seq<u8>| target.contains(c) implies before.insert(
                    change_canon(rs[i as int]),
                ).contains(c) by {
                    if canon_set(rs.subrange(0, i + 1)).contains(c) {
                        let j = choose |j: int|
                            0 <= j < i + 1 && c == change_canon(#[trigger] rs.subrange(0, i + 1)[j]);
                        if j < i {
                            assert(rs.subrange(0, i as int)[j] == rs[j]);
                            assert(canon_set(rs.subrange(0, i as int)).contains(c));
                        }
                    }
                }
                assert forall |c: Seq<u8>| before.insert(change_canon(rs[i as int])).contains(c)
                    implies target.contains(c) by {
                    if c == change_canon(rs[i as int]) {
                        assert(rs.subrange(0, i + 1)[i as int] == rs[i as int]);
                        assert(canon_set(rs.subrange(0, i + 1)).contains(c));
                    } else if canon_set(rs.subrange(0, i as int)).contains(c) {
                        let j = choose |j: int|
                            0 <= j < i && c == change_canon(#[trigger] rs.subrange(0, i as int)[j]);
                        assert(rs.subrange(0, i + 1)[j] == rs[j]);
                        assert(canon_set(rs.subrange(0, i + 1)).contains(c));
                    }
                }
                assert(snap_changes(snap@).to_set() =~= target);
            }
            i = i + 1;
        }
        proof {
            assert(rs.subrange(0, rs.len() as int) =~= rs);
            assert(rs.subrange(rs.len() as int, rs.len() as int) =~= Seq::<Seq<u8>>::empty());
        }
        self.serialized_backend = snap;
        Ok(())
    }

    /// Every change in the document's full history, each as its stored
    /// encoding: a full-history enumeration, not an incremental cursor.
    pub fn get_all_changes(&self) -> (r: Vec<Vec<u8>>)
        ensures
            r.deep_view() == self.history(),
    {
        proof {
            use_type_invariant(self);
        }
        let r = engine_list_changes(&self.serialized_backend);
        proof {
            assert(r.deep_view() =~~= self.history());
        }
        r
    }

    /// Reads one root field, converted back into a host value: `None`
    /// exactly when the document has no such field. It succeeds exactly
    /// when the content is readable — it fails only on stored values from
    /// a future engine version. A returned value is the rendering of a
    /// well-formed stored value with the content's view at the key.
    #[verifier::loop_isolation(false)]
    pub fn get(&self, key: &str) -> (r: Result<Option<HostValue>, DocError>)
        ensures
            (r is Ok) <==> self.readable(),
            r is Ok ==> ((r->Ok_0 is Some) <==> self.doc().dom().contains(key@)),
            r is Ok && r->Ok_0 is Some && bytes_free(self.doc()[key@]) ==> host_to_value(
                host_view(r->Ok_0->Some_0),
            ) == Ok::<ValueView, ConvError>(text_normal(self.doc()[key@])),
            r is Ok && r->Ok_0 is Some ==> exists |dv: DocValue|
                value_wf(dv) && value_view(dv) == self.doc()[key@] && host_view(
                    r->Ok_0->Some_0,
                ) == render_doc_value(dv),
    {
        proof {
            use_type_invariant(self);
        }
        let es = match engine_root_entries(&self.serialized_backend) {
            Ok(es) => es,
            Err(e) => {
                return Err(e);
            },
        };
        proof {
            lemma_mapping_view(es);
        }
        let key_owned = key.to_string();
        let mut i: usize = 0;
        while i < es.len()
            invariant
                i <= es@.len(),
                key_owned@ == key@,
                forall |j: int| 0 <= j < i ==> (#[trigger] es@[j].0@) != key@,
            decreases es@.len() - i,
        {
            if es[i].0 == key_owned {
                let hv = from_crdt_value(&es[i].1);
                proof {
                    assert(entries_contain_key(es@, key@));
                    assert(self.doc()[key@] == value_view(es@[i as int].1));
                    let dv = es@[i as int].1;
                    assert(value_wf(dv) && value_view(dv) == self.doc()[key@] && host_view(hv)
                        == render_doc_value(dv));
                }
                return Ok(Some(hv));
            }
            i = i + 1;
        }
        proof {
            assert forall |j: int| 0 <= j < es@.len() implies (#[trigger] es@[j].0@) != key@ by {}
            if self.doc().dom().contains(key@) {
                assert(entries_contain_key(es@, key@));
            }
        }
        Ok(None)
    }

    /// Assigns one root field from a host value: converts it, issues one
    /// local change, and replaces the snapshot. A value that does not
    /// convert is reported exactly as the conversion specification
    /// decides, and the document is unchanged; a convertible value always
    /// succeeds. On success the content gains exactly that field, and the
    /// history either grows by exactly one fresh change or — when the
    /// document already held exactly that field, so the engine has
    /// nothing to write — stays as it was.
    pub fn set(&mut self, key: &str, value: &HostValue) -> (r: Result<(), DocError>)
        ensures
            r is Err ==> final(self).snapshot() == old(self).snapshot(),
            host_to_value(value@) is Err ==> r is Err && r->Err_0 == doc_error_of_conv(
                host_to_value(value@)->Err_0,
            ),
            host_to_value(value@) is Ok ==> r is Ok,
            r is Ok ==> host_to_value(value@) is Ok && final(self).doc() == old(
                self,
            ).doc().insert(key@, host_to_value(value@)->Ok_0),
            r is Ok ==> (exists |c: Seq<u8>|
                !old(self).history().to_set().contains(c) && final(self).history() == old(
                    self,
                ).history().push(c)) || (final(self).history() == old(self).history() && old(
                self,
            ).doc().dom().contains(key@) && old(self).doc()[key@] == host_to_value(
                value@,
            )->Ok_0),
            r is Ok && old(self).readable() ==> final(self).readable(),
    {
        proof {
            use_type_invariant(&*self);
        }
        match to_crdt_value(value) {
            Err(e) => Err(conv_to_doc_error(e)),
            Ok(v) => {
                match engine_set_key(&self.serialized_backend, key, &v) {
                    Ok(ns) => {
                        proof {
                            if exists |c: Seq<u8>|
                                !snap_changes(old(self).snapshot()).to_set().contains(c)
                                    && snap_changes(ns@) == snap_changes(
                                    old(self).snapshot(),
                                ).push(c) {
                                let c = choose |c: Seq<u8>|
                                    !snap_changes(old(self).snapshot()).to_set().contains(c)
                                        && snap_changes(ns@) == snap_changes(
                                        old(self).snapshot(),
                                    ).push(c);
                                assert(!old(self).history().to_set().contains(c) && snap_changes(
                                    ns@,
                                ) == old(self).history().push(c));
                            }
                        }
                        self.serialized_backend = ns;
                        Ok(())
                    },
                    Err(e) => Err(e),
                }
            },
        }
    }

    /// Flattens the document into a host mapping: one entry per root
    /// field, keys unique, each value converted back into a host value.
    /// It succeeds exactly when the content is readable — it fails only
    /// on stored values from a future engine version. Each returned value
    /// is the rendering of a well-formed stored value with the content's
    /// view at its key.
    #[verifier::loop_isolation(false)]
    pub fn to_dict(&self) -> (r: Result<Vec<(String, HostValue)>, DocError>)
        ensures
            (r is Ok) <==> self.readable(),
            r is Ok ==> {
                &&& forall |i: int, j: int|
                    0 <= i < j < r->Ok_0@.len()
                        ==> (#[trigger] r->Ok_0@[i].0@) != (#[trigger] r->Ok_0@[j].0@)
                &&& forall |k: Seq<char>|
                    (exists |i: int| 0 <= i < r->Ok_0@.len() && (#[trigger] r->Ok_0@[i].0@) == k)
                        <==> self.doc().dom().contains(k)
                &&& forall |i: int|
                    0 <= i < r->Ok_0@.len() ==> self.doc().dom().contains(
                        (#[trigger] r->Ok_0@[i]).0@,
                    ) && (bytes_free(self.doc()[r->Ok_0@[i].0@]) ==> host_to_value(
                        host_view(r->Ok_0@[i].1),
                    ) == Ok::<ValueView, ConvError>(text_normal(self.doc()[r->Ok_0@[i].0@])))
                &&& forall |i: int|
                    0 <= i < r->Ok_0@.len() ==> exists |dv: DocValue|
                        value_wf(dv) && value_view(dv) == self.doc()[(#[trigger] r->Ok_0@[i]).0@]
                            && host_view(r->Ok_0@[i].1) == render_doc_value(dv)
            },
    {
        proof {
            use_type_invariant(self);
        }
        let es = match engine_root_entries(&self.serialized_backend) {
            Ok(es) => es,
            Err(e) => {
                return Err(e);
            },
        };
        proof {
            lemma_mapping_view(es);
        }
        let mut out: Vec<(String, HostValue)> = Vec::new();
        let mut i: usize = 0;
        while i < es.len()
            invariant
                i <= es@.len(),
                out@.len() == i,
                forall |j: int| 0 <= j < i ==> (#[trigger] out@[j].0@) == es@[j].0@,
                forall |j: int| 0 <= j < i ==> host_view((#[trigger] out@[j]).1)
                    == render_doc_value(es@[j].1),
                forall |j: int| 0 <= j < i ==> bytes_free(value_view((#[trigger] es@[j]).1))
                    ==> host_to_value(host_view(out@[j].1)) == Ok::<ValueView, ConvError>(
                    text_normal(value_view(es@[j].1)),
                ),
            decreases es@.len() - i,
        {
            let hv = from_crdt_value(&es[i].1);
            out.push((es[i].0.clone(), hv));
            i = i + 1;
        }
        proof {
            assert forall |k: Seq<char>|
                (exists |i2: int| 0 <= i2 < out@.len() && (#[trigger] out@[i2].0@) == k)
                    implies self.doc().dom().contains(k) by {
                let i2 = choose |i2: int| 0 <= i2 < out@.len() && (#[trigger] out@[i2].0@) == k;
                assert(es@[i2].0@ == k);
                assert(entries_contain_key(es@, k));
            }
            assert forall |k: Seq<char>| self.doc().dom().contains(k) implies (exists |i2: int|
                0 <= i2 < out@.len() && (#[trigger] out@[i2].0@) == k) by {
                assert(entries_contain_key(es@, k));
                let j = choose |j: int| 0 <= j < es@.len() && (#[trigger] es@[j]).0@ == k;
                assert(out@[j].0@ == k);
            }
            assert forall |i2: int| 0 <= i2 < out@.len() implies self.doc().dom().contains(
                (#[trigger] out@[i2]).0@,
            ) && (bytes_free(self.doc()[out@[i2].0@]) ==> host_to_value(host_view(out@[i2].1))
                == Ok::<ValueView, ConvError>(text_normal(self.doc()[out@[i2].0@]))) by {
                assert(out@[i2].0@ == es@[i2].0@);
                assert(entries_contain_key(es@, es@[i2].0@));
                assert(self.doc()[es@[i2].0@] == value_view(es@[i2].1));
            }
            assert forall |i2: int| 0 <= i2 < out@.len() implies exists |dv: DocValue|
                value_wf(dv) && value_view(dv) == self.doc()[(#[trigger] out@[i2]).0@]
                    && host_view(out@[i2].1) == render_doc_value(dv) by {
                let dv = es@[i2].1;
                assert(self.doc()[out@[i2].0@] == value_view(dv));
                assert(value_wf(dv) && value_view(dv) == self.doc()[out@[i2].0@] && host_view(
                    out@[i2].1,
                ) == render_doc_value(dv));
            }
        }
        Ok(out)
    }
}

/// Creates the two-field document the collaborative editor starts from:
/// one change writes the document identifier as a string scalar, a second
/// writes the text area as an editable text — exactly two changes, one
/// per field write.
pub fn new_document(doc_id: &str, text: &str) -> (r: Result<Vec<u8>, DocError>)
    ensures
        r is Ok,
        r is Ok ==> snap_wf(r->Ok_0@),
        r is Ok ==> snap_changes(r->Ok_0@).len() == 2,
        r is Ok ==> snap_doc(r->Ok_0@) == Map::<Seq<char>, ValueView>::empty().insert(
            "docId"@,
            ValueView::Scalar(ScalarView::Str(doc_id@)),
        ).insert("textArea"@, ValueView::Text(text@)),
{
    let s0 = engine_new_snapshot();
    proof {
        assert(snap_doc(s0@) =~= Map::<Seq<char>, ValueView>::empty());
    }
    let id_value = DocValue::Scalar(DocScalar::Str(doc_id.to_string()));
    let s1 = match engine_set_key(&s0, "docId", &id_value) {
        Ok(s) => s,
        Err(e) => {
            return Err(e);
        },
    };
    proof {
        assert(!snap_doc(s0@).dom().contains("docId"@));
        assert(snap_changes(s1@).len() == 1);
    }
    let text_value = DocValue::Text(text.to_string());
    let s2 = match engine_set_key(&s1, "textArea", &text_value) {
        Ok(s) => s,
        Err(e) => {
            return Err(e);
        },
    };
    proof {
        reveal_strlit("docId");
        reveal_strlit("textArea");
        assert("docId"@.len() != "textArea"@.len());
        assert(!snap_doc(s1@).dom().contains("textArea"@));
        assert(snap_changes(s2@).len() == 2);
    }
    Ok(s2)
}

/// The fixed starting document of the collaboration room.
pub fn new_backend() -> (r: Result<Vec<u8>, DocError>)
    ensures
        r is Ok,
        r is Ok ==> snap_wf(r->Ok_0@),
        r is Ok ==> snap_changes(r->Ok_0@).len() == 2,
        r is Ok ==> snap_doc(r->Ok_0@) == Map::<Seq<char>, ValueView>::empty().insert(
            "docId"@,
            ValueView::Scalar(ScalarView::Str("automerge-room"@)),
        ).insert("textArea"@, ValueView::Text("Hello"@)),
{
    new_document("automerge-room", "Hello")
}

/// Applies one remote change to a bare snapshot: malformed snapshots are
/// rejected as such; on a well-formed snapshot it succeeds exactly when
/// the change applies to its history, and then the history is the old
/// set plus this change, in its stored form.
pub fn apply_change(doc: &Vec<u8>, change: &Vec<u8>) -> (r: Result<Vec<u8>, DocError>)
    ensures
        !snap_wf(doc@) ==> r is Err && r->Err_0 == DocError::DeserializationError,
        snap_wf(doc@) ==> ((r is Ok) <==> change_applies(
            snap_changes(doc@).to_set(),
            change@,
        )),
        r is Ok ==> snap_wf(r->Ok_0@) && snap_changes(r->Ok_0@).to_set() == snap_changes(
            doc@,
        ).to_set().insert(change_canon(change@)),
{
    if !engine_probe(doc) {
        return Err(DocError::DeserializationError);
    }
    engine_apply_one(doc, change)
}

/// Enumerates the full change history of a bare snapshot: malformed
/// snapshots are rejected as such, and nothing else fails.
pub fn get_changes(doc: &Vec<u8>) -> (r: Result<Vec<Vec<u8>>, DocError>)
    ensures
        (r is Ok) <==> snap_wf(doc@),
        r is Err ==> r->Err_0 == DocError::DeserializationError,
        r is Ok ==> r->Ok_0.deep_view() == snap_changes(doc@),
{
    if !engine_probe(doc) {
        return Err(DocError::DeserializationError);
    }
    let r = engine_list_changes(doc);
    proof {
        assert(r.deep_view() =~~= snap_changes(doc@));
    }
    Ok(r)
}

/// The change enumeration under its historical name.
pub fn get_all_changes(doc: &Vec<u8>) -> (r: Result<Vec<Vec<u8>>, DocError>)
    ensures
        (r is Ok) <==> snap_wf(doc@),
        r is Err ==> r->Err_0 == DocError::DeserializationError,
        r is Ok ==> r->Ok_0.deep_view() == snap_changes(doc@),
{
    get_changes(doc)
}

/// Round trip (law): create a document from a convertible host mapping and
/// flatten it back, and the result is the same mapping up to entry order.
/// `hs` is the initial mapping, `doc` the created document's content (what
/// `HashmapDocument::new` ensures), and `out` the flattened result (what
/// `to_dict` ensures). Then the output covers exactly the keys of `hs`,
/// and each output value converts to the very document value that the
/// matching input entry converted to.
pub proof fn lemma_create_round_trip(
    hs: Seq<(HostView, HostView)>,
    doc: Map<Seq<char>, ValueView>,
    out: Seq<(Seq<char>, HostView)>,
)
    requires
        host_dict_to_map(hs) == Ok::<Map<Seq<char>, ValueView>, ConvError>(doc),
        forall |k: Seq<char>|
            (exists |i: int| 0 <= i < out.len() && (#[trigger] out[i].0) == k)
                <==> doc.dom().contains(k),
        forall |i: int|
            0 <= i < out.len() ==> doc.dom().contains((#[trigger] out[i]).0) && (bytes_free(
                doc[out[i].0],
            ) ==> host_to_value(out[i].1) == Ok::<ValueView, ConvError>(text_normal(
                doc[out[i].0],
            ))),
    ensures
        forall |i: int|
            0 <= i < out.len() ==> host_to_value((#[trigger] out[i]).1) == Ok::<
                ValueView,
                ConvError,
            >(doc[out[i].0]),
        forall |k: Seq<char>|
            (exists |i: int| 0 <= i < out.len() && (#[trigger] out[i].0) == k)
                <==> host_dict_has_key(hs, k),
        forall |i: int|
            0 <= i < out.len() ==> exists |j: int|
                0 <= j < hs.len() && (#[trigger] hs[j]).0 == HostView::Str((#[trigger] out[i]).0)
                    && host_to_value(out[i].1) == host_to_value(hs[j].1),
{
    lemma_host_dict_conv(hs);
    assert forall |k: Seq<char>|
        (exists |i: int| 0 <= i < out.len() && (#[trigger] out[i].0) == k) <==> host_dict_has_key(
            hs,
            k,
        ) by {
        if exists |i: int| 0 <= i < out.len() && (#[trigger] out[i].0) == k {
            assert(doc.dom().contains(k));
            let j = choose |j: int| 0 <= j < hs.len() && (#[trigger] hs[j]).0 == HostView::Str(k);
            assert(host_dict_has_key(hs, k));
        }
        if host_dict_has_key(hs, k) {
            let j = choose |j: int|
                0 <= j < hs.len() && (#[trigger] hs[j]).0 == HostView::Str(k);
            assert(doc.dom().contains(k));
        }
    }
    assert forall |i: int| 0 <= i < out.len() implies host_to_value((#[trigger] out[i]).1) == Ok::<
        ValueView,
        ConvError,
    >(doc[out[i].0]) && (exists |j: int|
        0 <= j < hs.len() && (#[trigger] hs[j]).0 == HostView::Str(out[i].0) && host_to_value(
            out[i].1,
        ) == host_to_value(hs[j].1)) by {
        let k = out[i].0;
        let j = choose |j: int|
            0 <= j < hs.len() && (#[trigger] hs[j]).0 == HostView::Str(k) && doc[k]
                == host_to_value(hs[j].1)->Ok_0;
        lemma_host_to_value_normal(hs[j].1);
        assert(text_normal(doc[k]) == doc[k]);
        assert(bytes_free(doc[k]));
        assert(host_to_value(out[i].1) == Ok::<ValueView, ConvError>(doc[k]));
        assert(host_to_value(hs[j].1) == Ok::<ValueView, ConvError>(doc[k]));
    }
}

/// Snapshot stability (law): content is determined by the change history
/// alone, so any operation that preserves the history — duplication, or a
/// save and load cycle — preserves everything the facade can observe.
pub proof fn lemma_snapshot_content_determined(s1: Seq<u8>, s2: Seq<u8>)
    requires
        snap_changes(s1) == snap_changes(s2),
    ensures
        snap_doc(s1) == snap_doc(s2),
{
}

/// Convergence (law): from one history, applying two remote changes in
/// either order yields the same content, and applying a change twice
/// yields what applying it once yields. With `apply_changes`' contract
/// this makes concurrent peers converge however their changes arrive.
pub proof fn lemma_apply_commutes(base: Set<Seq<u8>>, c1: Seq<u8>, c2: Seq<u8>)
    ensures
        doc_of_changes(base.insert(c1).insert(c2)) == doc_of_changes(base.insert(c2).insert(c1)),
        doc_of_changes(base.insert(c1).insert(c1)) == doc_of_changes(base.insert(c1)),
{
    assert(base.insert(c1).insert(c2) =~= base.insert(c2).insert(c1));
    assert(base.insert(c1).insert(c1) =~= base.insert(c1));
}

/// Re-application (law): joining a history with a change it already
/// holds changes nothing, so re-applying a change taken from the change
/// enumeration — whose elements are their own stored encodings — leaves
/// the content as it was.
pub proof fn lemma_reapply_is_noop(history: Set<Seq<u8>>, c: Seq<u8>)
    requires
        history.contains(c),
    ensures
        doc_of_changes(history.insert(c)) == doc_of_changes(history),
{
    assert(history.insert(c) =~= history);
}

} // verus!
