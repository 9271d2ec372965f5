use jupyter_rtc_automerge::host::HostValue;
use jupyter_rtc_automerge::values::{DocValue, DocScalar};
use jupyter_rtc_automerge::convert::{ConvError, to_crdt_value, from_crdt_value};

#[test]
fn strings_convert_to_texts() {
    // A host string becomes an editable text, not a string scalar: the
    // engine only supports collaborative editing on texts.
    let v = to_crdt_value(&HostValue::Str("abc".to_string())).unwrap();
    match v {
        DocValue::Text(t) => assert_eq!(t, "abc"),
        other => panic!("expected a text, got {:?}", other),
    }
}

#[test]
fn integers_and_floats_convert_to_scalars() {
    assert!(matches!(
        to_crdt_value(&HostValue::Int(-5)).unwrap(),
        DocValue::Scalar(DocScalar::Int(-5))
    ));
    let bits = 2.5f64.to_bits();
    assert!(matches!(
        to_crdt_value(&HostValue::Float(bits)).unwrap(),
        DocValue::Scalar(DocScalar::F64Bits(b)) if b == bits
    ));
}

#[test]
fn byte_arrays_have_no_conversion() {
    assert!(matches!(
        to_crdt_value(&HostValue::Bytes(vec![1, 2])),
        Err(ConvError::UnsupportedValueType)
    ));
}

#[test]
fn non_string_key_is_the_reported_error() {
    let bad = HostValue::Dict(vec![(HostValue::Null, HostValue::Int(1))]);
    assert!(matches!(to_crdt_value(&bad), Err(ConvError::UnsupportedKeyType)));
}

#[test]
fn first_failure_in_order_decides_the_error() {
    // The first entry fails on its value, the second on its key: the
    // value error is the one reported.
    let d = HostValue::Dict(vec![
        (HostValue::Str("k".to_string()), HostValue::Opaque),
        (HostValue::Int(0), HostValue::Int(1)),
    ]);
    assert!(matches!(to_crdt_value(&d), Err(ConvError::UnsupportedValueType)));
}

#[test]
fn duplicate_keys_keep_the_earliest_entry() {
    let d = HostValue::Dict(vec![
        (HostValue::Str("k".to_string()), HostValue::Int(1)),
        (HostValue::Str("k".to_string()), HostValue::Int(2)),
    ]);
    match to_crdt_value(&d).unwrap() {
        DocValue::Mapping(entries) => {
            assert_eq!(entries.len(), 1);
            assert_eq!(entries[0].0, "k");
            assert!(matches!(entries[0].1, DocValue::Scalar(DocScalar::Int(1))));
        },
        other => panic!("expected a mapping, got {:?}", other),
    }
}

#[test]
fn every_scalar_kind_has_a_host_rendering() {
    // The return direction is total: string scalars come back as host
    // strings, and the once-unrepresented kinds come back as themselves.
    assert!(matches!(
        from_crdt_value(&DocValue::Scalar(DocScalar::Str("s".to_string()))),
        HostValue::Str(_)
    ));
    assert!(matches!(
        from_crdt_value(&DocValue::Scalar(DocScalar::Boolean(true))),
        HostValue::Bool(true)
    ));
    assert!(matches!(from_crdt_value(&DocValue::Scalar(DocScalar::Null)), HostValue::Null));
    assert!(matches!(
        from_crdt_value(&DocValue::Scalar(DocScalar::Uint(7))),
        HostValue::Uint(7)
    ));
    assert!(matches!(
        from_crdt_value(&DocValue::Scalar(DocScalar::Counter(3))),
        HostValue::Counter(3)
    ));
    assert!(matches!(
        from_crdt_value(&DocValue::Scalar(DocScalar::Timestamp(9))),
        HostValue::Timestamp(9)
    ));
    assert!(matches!(
        from_crdt_value(&DocValue::Scalar(DocScalar::Bytes(vec![1]))),
        HostValue::Bytes(_)
    ));
    assert!(matches!(from_crdt_value(&DocValue::Text("t".to_string())), HostValue::Str(_)));
}

#[test]
fn conversion_round_trip_is_identity_on_lists() {
    let original = HostValue::List(vec![
        HostValue::Int(1),
        HostValue::Str("x".to_string()),
        HostValue::List(vec![HostValue::Bool(false)]),
    ]);
    let there = to_crdt_value(&original).unwrap();
    let back = from_crdt_value(&there);
    match (&original, &back) {
        (HostValue::List(a), HostValue::List(b)) => {
            assert_eq!(a.len(), b.len());
            assert!(matches!(b[0], HostValue::Int(1)));
            assert!(matches!(&b[1], HostValue::Str(s) if s == "x"));
            assert!(matches!(&b[2], HostValue::List(inner) if inner.len() == 1));
        },
        _ => panic!("expected lists"),
    }
}
