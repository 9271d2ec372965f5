use jupyter_rtc_automerge::host::HostValue;
use jupyter_rtc_automerge::errors::DocError;
use jupyter_rtc_automerge::facade::{HashmapDocument, new_document, new_backend, apply_change,
    get_changes, get_all_changes};

/// Structural equality of host values, with dictionary entry order ignored.
fn host_eq(a: &HostValue, b: &HostValue) -> bool {
    match (a, b) {
        (HostValue::Int(x), HostValue::Int(y)) => x == y,
        (HostValue::Uint(x), HostValue::Uint(y)) => x == y,
        (HostValue::Float(x), HostValue::Float(y)) => x == y,
        (HostValue::Bool(x), HostValue::Bool(y)) => x == y,
        (HostValue::Null, HostValue::Null) => true,
        (HostValue::Str(x), HostValue::Str(y)) => x == y,
        (HostValue::Counter(x), HostValue::Counter(y)) => x == y,
        (HostValue::Timestamp(x), HostValue::Timestamp(y)) => x == y,
        (HostValue::Bytes(x), HostValue::Bytes(y)) => x == y,
        (HostValue::List(xs), HostValue::List(ys)) => {
            xs.len() == ys.len() && xs.iter().zip(ys.iter()).all(|(x, y)| host_eq(x, y))
        },
        (HostValue::Dict(xs), HostValue::Dict(ys)) => {
            xs.len() == ys.len() && xs.iter().all(|(k, v)| {
                ys.iter().any(|(k2, v2)| host_eq(k, k2) && host_eq(v, v2))
            })
        },
        (HostValue::Opaque, HostValue::Opaque) => true,
        _ => false,
    }
}

fn dict_of(entries: Vec<(String, HostValue)>) -> HostValue {
    HostValue::Dict(entries.into_iter().map(|(k, v)| (HostValue::Str(k), v)).collect())
}

fn str_key(k: &str, v: HostValue) -> (HostValue, HostValue) {
    (HostValue::Str(k.to_string()), v)
}

#[test]
fn amtextarea_test_new_document() {
    // Creating a document writes two fields; its history must hold two
    // changes, one per field write.
    let doc = new_document("test_doc_id", "Test content").unwrap();
    let changes = get_changes(&doc).unwrap();
    assert_eq!(changes.len(), 2);
}

#[test]
fn textarea_test_new_document() {
    let doc = new_document("test_doc_id", "Test content").unwrap();
    let changes = get_all_changes(&doc).unwrap();
    assert_eq!(changes.len(), 2);
}

#[test]
fn new_backend_has_two_changes() {
    let doc = new_backend().unwrap();
    let changes = get_changes(&doc).unwrap();
    assert_eq!(changes.len(), 2);
}

#[test]
fn create_two_fields_yields_two_changes() {
    let doc = HashmapDocument::new(vec![
        str_key("docId", HostValue::Str("X".to_string())),
        str_key("textArea", HostValue::Str("Hello".to_string())),
    ]).unwrap();
    assert_eq!(doc.get_all_changes().len(), 2);
}

#[test]
fn create_empty_yields_no_changes() {
    let doc = HashmapDocument::new(vec![]).unwrap();
    assert_eq!(doc.get_all_changes().len(), 0);
    assert_eq!(doc.to_dict().unwrap().len(), 0);
}

#[test]
fn round_trip_mixed_values() {
    // A mapping of every supported kind reads back structurally equal.
    let initial = vec![
        str_key("int", HostValue::Int(-42)),
        str_key("float", HostValue::Float(3.75f64.to_bits())),
        str_key("text", HostValue::Str("hello world".to_string())),
        str_key("flag", HostValue::Bool(true)),
        str_key("nothing", HostValue::Null),
        str_key("list", HostValue::List(vec![
            HostValue::Int(1),
            HostValue::Str("two".to_string()),
            HostValue::List(vec![HostValue::Int(3)]),
        ])),
        str_key("nested", HostValue::Dict(vec![
            str_key("inner", HostValue::Int(7)),
            str_key("deep", HostValue::Dict(vec![str_key("x", HostValue::Bool(false))])),
        ])),
    ];
    let expected = dict_of(vec![
        ("int".to_string(), HostValue::Int(-42)),
        ("float".to_string(), HostValue::Float(3.75f64.to_bits())),
        ("text".to_string(), HostValue::Str("hello world".to_string())),
        ("flag".to_string(), HostValue::Bool(true)),
        ("nothing".to_string(), HostValue::Null),
        ("list".to_string(), HostValue::List(vec![
            HostValue::Int(1),
            HostValue::Str("two".to_string()),
            HostValue::List(vec![HostValue::Int(3)]),
        ])),
        ("nested".to_string(), dict_of(vec![
            ("inner".to_string(), HostValue::Int(7)),
            ("deep".to_string(), dict_of(vec![("x".to_string(), HostValue::Bool(false))])),
        ])),
    ]);
    let doc = HashmapDocument::new(initial).unwrap();
    let read = dict_of(doc.to_dict().unwrap());
    assert!(host_eq(&read, &expected));
}

#[test]
fn scalar_kinds_round_trip() {
    let mut doc = HashmapDocument::new(vec![]).unwrap();
    doc.set("count", &HostValue::Counter(5)).unwrap();
    doc.set("when", &HostValue::Timestamp(1_600_000_000)).unwrap();
    doc.set("big", &HostValue::Uint(u64::MAX)).unwrap();
    assert!(matches!(doc.get("count").unwrap(), Some(HostValue::Counter(5))));
    assert!(matches!(doc.get("when").unwrap(), Some(HostValue::Timestamp(1_600_000_000))));
    assert!(matches!(doc.get("big").unwrap(), Some(HostValue::Uint(u64::MAX))));
}

#[test]
fn float_bits_round_trip() {
    let mut doc = HashmapDocument::new(vec![]).unwrap();
    let bits = (-0.1f64).to_bits();
    doc.set("f", &HostValue::Float(bits)).unwrap();
    match doc.get("f").unwrap() {
        Some(HostValue::Float(read)) => assert_eq!(read, bits),
        other => panic!("expected a float back, got {:?}", other),
    }
}

#[test]
fn duplicate_preserves_content() {
    let mut doc = HashmapDocument::new(vec![
        str_key("a", HostValue::Int(1)),
        str_key("b", HostValue::Str("two".to_string())),
    ]).unwrap();
    doc.set("c", &HostValue::List(vec![HostValue::Int(3)])).unwrap();
    let copy = doc.copy();
    let original = dict_of(doc.to_dict().unwrap());
    let duplicated = dict_of(copy.to_dict().unwrap());
    assert!(host_eq(&original, &duplicated));
    assert_eq!(doc.get_all_changes(), copy.get_all_changes());
}

#[test]
fn snapshot_stability_under_operations() {
    // A save and load cycle (copy) behaves identically afterwards.
    let base = HashmapDocument::new(vec![str_key("k", HostValue::Int(0))]).unwrap();
    let mut a = base.copy();
    let mut b = a.copy().copy();
    a.set("k", &HostValue::Int(1)).unwrap();
    b.set("k", &HostValue::Int(1)).unwrap();
    assert_eq!(a.get_all_changes().len(), b.get_all_changes().len());
    assert!(matches!(a.get("k").unwrap(), Some(HostValue::Int(1))));
    assert!(matches!(b.get("k").unwrap(), Some(HostValue::Int(1))));
}

#[test]
fn concurrent_changes_commute() {
    // Two causally unrelated changes, applied in either order, converge.
    let base = HashmapDocument::new(vec![str_key("docId", HostValue::Str("room".to_string()))])
        .unwrap();
    let mut peer1 = base.copy();
    let mut peer2 = base.copy();
    peer1.set("x", &HostValue::Int(1)).unwrap();
    peer2.set("y", &HostValue::Int(2)).unwrap();
    let changes1 = peer1.get_all_changes();
    let changes2 = peer2.get_all_changes();

    let mut first = base.copy();
    first.apply_changes(&changes1).unwrap();
    first.apply_changes(&changes2).unwrap();

    let mut second = base.copy();
    second.apply_changes(&changes2).unwrap();
    second.apply_changes(&changes1).unwrap();

    let one = dict_of(first.to_dict().unwrap());
    let two = dict_of(second.to_dict().unwrap());
    assert!(host_eq(&one, &two));
    assert!(matches!(first.get("x").unwrap(), Some(HostValue::Int(1))));
    assert!(matches!(first.get("y").unwrap(), Some(HostValue::Int(2))));
}

#[test]
fn applying_changes_twice_changes_nothing() {
    let base = HashmapDocument::new(vec![]).unwrap();
    let mut peer = base.copy();
    peer.set("v", &HostValue::Int(9)).unwrap();
    let changes = peer.get_all_changes();
    let mut doc = base.copy();
    doc.apply_changes(&changes).unwrap();
    let once = dict_of(doc.to_dict().unwrap());
    let count_once = doc.get_all_changes().len();
    doc.apply_changes(&changes).unwrap();
    let twice = dict_of(doc.to_dict().unwrap());
    assert!(host_eq(&once, &twice));
    assert_eq!(count_once, doc.get_all_changes().len());
}

#[test]
fn non_string_key_reports_unsupported_key() {
    let r = HashmapDocument::new(vec![(HostValue::Int(1), HostValue::Str("v".to_string()))]);
    assert!(matches!(r, Err(DocError::UnsupportedKeyType)));
}

#[test]
fn non_string_key_in_nested_value_leaves_document_unchanged() {
    let mut doc = HashmapDocument::new(vec![str_key("a", HostValue::Int(1))]).unwrap();
    let before = dict_of(doc.to_dict().unwrap());
    let count = doc.get_all_changes().len();
    let bad = HostValue::Dict(vec![(HostValue::Bool(true), HostValue::Int(2))]);
    let r = doc.set("b", &bad);
    assert!(matches!(r, Err(DocError::UnsupportedKeyType)));
    let after = dict_of(doc.to_dict().unwrap());
    assert!(host_eq(&before, &after));
    assert_eq!(count, doc.get_all_changes().len());
}

#[test]
fn unsupported_values_are_reported() {
    let mut doc = HashmapDocument::new(vec![]).unwrap();
    assert!(matches!(
        doc.set("o", &HostValue::Opaque),
        Err(DocError::UnsupportedValueType)
    ));
    assert!(matches!(
        doc.set("b", &HostValue::Bytes(vec![1, 2, 3])),
        Err(DocError::UnsupportedValueType)
    ));
    assert_eq!(doc.get_all_changes().len(), 0);
}

#[test]
fn malformed_snapshot_is_rejected() {
    let garbage = vec![1u8, 2, 3, 4];
    assert!(matches!(get_changes(&garbage), Err(DocError::DeserializationError)));
    let doc = new_document("d", "t").unwrap();
    let changes = get_changes(&doc).unwrap();
    assert!(matches!(
        apply_change(&garbage, &changes[0]),
        Err(DocError::DeserializationError)
    ));
}

#[test]
fn malformed_change_is_rejected() {
    let doc = new_document("d", "t").unwrap();
    let r = apply_change(&doc, &vec![9u8, 9, 9]);
    assert!(r.is_err());
}

#[test]
fn missing_key_reads_none() {
    let doc = HashmapDocument::new(vec![str_key("a", HostValue::Int(1))]).unwrap();
    assert!(matches!(doc.get("nope"), Ok(None)));
}

#[test]
fn set_overwrites_and_counts_changes() {
    let mut doc = HashmapDocument::new(vec![]).unwrap();
    doc.set("x", &HostValue::Int(1)).unwrap();
    doc.set("x", &HostValue::Int(2)).unwrap();
    assert!(matches!(doc.get("x").unwrap(), Some(HostValue::Int(2))));
    assert_eq!(doc.get_all_changes().len(), 2);
}

#[test]
fn apply_change_transfers_history() {
    // Replaying one document's full history into another merges them.
    let source = new_document("left", "one").unwrap();
    let mut target = new_document("right", "two").unwrap();
    for change in get_changes(&source).unwrap() {
        target = apply_change(&target, &change).unwrap();
    }
    assert_eq!(get_changes(&target).unwrap().len(), 4);
}

#[test]
fn equal_scalar_rewrite_commits_no_change() {
    // Writing a scalar equal to the stored value is dropped by the
    // engine: the history stays as it was.
    let mut doc = HashmapDocument::new(vec![]).unwrap();
    doc.set("x", &HostValue::Int(1)).unwrap();
    doc.set("x", &HostValue::Int(1)).unwrap();
    assert_eq!(doc.get_all_changes().len(), 1);
    assert!(matches!(doc.get("x").unwrap(), Some(HostValue::Int(1))));
}

#[test]
fn change_with_missing_dependency_is_rejected() {
    let mut peer = HashmapDocument::new(vec![]).unwrap();
    peer.set("a", &HostValue::Int(1)).unwrap();
    peer.set("b", &HostValue::Int(2)).unwrap();
    let changes = peer.get_all_changes();
    let mut doc = HashmapDocument::new(vec![]).unwrap();
    let r = doc.apply_changes(&vec![changes[1].clone()]);
    assert!(r.is_err());
    assert_eq!(doc.get_all_changes().len(), 0);
}
