use cql_marshal::decode::{decode, decode_guarded, decode_opt, nests_within};
use cql_marshal::value::{CqlValue, DynValue};

fn text(s: &str) -> DynValue {
    DynValue::Text(s.to_string())
}

#[test]
fn decode_int32_is_integer() {
    assert_eq!(decode(&CqlValue::Int(7)), DynValue::Int(7));
}

#[test]
fn decode_boolean_is_bool() {
    assert_eq!(decode(&CqlValue::Boolean(true)), DynValue::Bool(true));
}

#[test]
fn decode_blob_is_bytes() {
    assert_eq!(decode(&CqlValue::Blob(vec![1, 2, 3])), DynValue::Bytes(vec![1, 2, 3]));
}

#[test]
fn decode_narrow_integers_widen() {
    assert_eq!(decode(&CqlValue::SmallInt(-3)), DynValue::Int(-3));
    assert_eq!(decode(&CqlValue::TinyInt(-128)), DynValue::Int(-128));
    assert_eq!(decode(&CqlValue::BigInt(i64::MAX)), DynValue::Int(i64::MAX));
    assert_eq!(decode(&CqlValue::Counter(42)), DynValue::Int(42));
}

#[test]
fn decode_text_like_values_are_text() {
    assert_eq!(decode(&CqlValue::Text("hi".to_string())), text("hi"));
    assert_eq!(decode(&CqlValue::Ascii("abc".to_string())), text("abc"));
    let u = "550e8400-e29b-41d4-a716-446655440000";
    assert_eq!(decode(&CqlValue::Uuid(u.to_string())), text(u));
    assert_eq!(decode(&CqlValue::Inet("127.0.0.1".to_string())), text("127.0.0.1"));
    assert_eq!(decode(&CqlValue::Varint("CqlVarint([1])".to_string())), text("CqlVarint([1])"));
    assert_eq!(decode(&CqlValue::Unknown("Future(1)".to_string())), text("Future(1)"));
}

#[test]
fn decode_floats_keep_their_bits() {
    let f: f32 = 1.5;
    let d: f64 = -2.25;
    assert_eq!(decode(&CqlValue::Float(f.to_bits())), DynValue::Float32(f.to_bits()));
    assert_eq!(decode(&CqlValue::Double(d.to_bits())), DynValue::Float64(d.to_bits()));
}

#[test]
fn decode_time_values_are_integers() {
    assert_eq!(decode(&CqlValue::Timestamp(1_700_000_000_000)), DynValue::Int(1_700_000_000_000));
    assert_eq!(decode(&CqlValue::Date(2_147_483_648)), DynValue::Int(2_147_483_648));
    assert_eq!(decode(&CqlValue::Time(5)), DynValue::Int(5));
}

#[test]
fn decode_null_is_null() {
    assert_eq!(decode(&CqlValue::Empty), DynValue::Null);
    assert_eq!(decode_opt(&None), DynValue::Null);
}

#[test]
fn decode_duration_is_mapping() {
    let d = CqlValue::Duration { months: 1, days: 2, nanoseconds: 3 };
    assert_eq!(
        decode(&d),
        DynValue::Dict(vec![
            (text("months"), DynValue::Int(1)),
            (text("days"), DynValue::Int(2)),
            (text("nanoseconds"), DynValue::Int(3)),
        ])
    );
}

#[test]
fn decode_list_is_sequence() {
    let v = CqlValue::List(vec![CqlValue::Int(1), CqlValue::Int(2)]);
    assert_eq!(decode(&v), DynValue::List(vec![DynValue::Int(1), DynValue::Int(2)]));
}

#[test]
fn decode_set_is_sequence() {
    let v = CqlValue::SetOf(vec![CqlValue::Text("a".to_string())]);
    assert_eq!(decode(&v), DynValue::List(vec![text("a")]));
}

#[test]
fn decode_map_is_mapping() {
    let v = CqlValue::MapOf(vec![(CqlValue::Text("a".to_string()), CqlValue::Int(1))]);
    assert_eq!(decode(&v), DynValue::Dict(vec![(text("a"), DynValue::Int(1))]));
}

#[test]
fn decode_tuple_renders_absent_slots_as_null() {
    let v = CqlValue::Tuple(vec![Some(CqlValue::Int(1)), None]);
    assert_eq!(decode(&v), DynValue::List(vec![DynValue::Int(1), DynValue::Null]));
}

#[test]
fn decode_udt_is_mapping_by_field_name() {
    let v = CqlValue::UserDefinedType {
        keyspace: "ks".to_string(),
        udt_name: "addr".to_string(),
        fields: vec![("street".to_string(), Some(CqlValue::Text("x".to_string()))), ("zip".to_string(), None)],
    };
    assert_eq!(decode(&v), DynValue::Dict(vec![(text("street"), text("x")), (text("zip"), DynValue::Null)]));
}

#[test]
fn decode_three_levels_of_nesting() {
    let inner = CqlValue::Tuple(vec![Some(CqlValue::Int(5)), None]);
    let map = CqlValue::MapOf(vec![(CqlValue::Text("k".to_string()), inner)]);
    let v = CqlValue::List(vec![map, CqlValue::Empty]);
    assert_eq!(
        decode(&v),
        DynValue::List(vec![
            DynValue::Dict(vec![(text("k"), DynValue::List(vec![DynValue::Int(5), DynValue::Null]))]),
            DynValue::Null,
        ])
    );
}

#[test]
fn copy_keeps_nested_value() {
    let v = CqlValue::List(vec![CqlValue::MapOf(vec![(CqlValue::Int(1), CqlValue::Blob(vec![9]))])]);
    assert_eq!(v.copy(), v);
}

#[test]
fn guarded_decode_respects_depth_limit() {
    let v = CqlValue::List(vec![CqlValue::MapOf(vec![(CqlValue::Int(1), CqlValue::Tuple(vec![Some(CqlValue::Int(2))]))])]);
    assert!(nests_within(&v, 4));
    assert!(!nests_within(&v, 3));
    assert_eq!(decode_guarded(&v, 4), Some(decode(&v)));
    assert_eq!(decode_guarded(&v, 3), None);
    assert_eq!(decode_guarded(&CqlValue::Int(1), 1), Some(DynValue::Int(1)));
    assert_eq!(decode_guarded(&CqlValue::Int(1), 0), None);
}
