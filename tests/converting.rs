use cql_marshal::convert::{dict_to_encodables, dict_to_values, to_cql};
use cql_marshal::encode::{EncodeError, Encodable};
use cql_marshal::value::{CqlValue, DynValue};

fn text(s: &str) -> DynValue {
    DynValue::Text(s.to_string())
}

#[test]
fn to_cql_probes_in_order() {
    assert_eq!(to_cql(&DynValue::Null), Ok(CqlValue::Empty));
    assert_eq!(to_cql(&DynValue::Bool(true)), Ok(CqlValue::Boolean(true)));
    assert_eq!(to_cql(&DynValue::Int(5)), Ok(CqlValue::Int(5)));
    assert_eq!(to_cql(&DynValue::Int(5_000_000_000)), Ok(CqlValue::BigInt(5_000_000_000)));
    assert_eq!(to_cql(&DynValue::Float64(7)), Ok(CqlValue::Double(7)));
    assert_eq!(to_cql(&text("s")), Ok(CqlValue::Text("s".to_string())));
    assert_eq!(to_cql(&DynValue::Bytes(vec![4])), Ok(CqlValue::Blob(vec![4])));
}

#[test]
fn to_cql_converts_collections_recursively() {
    let v = DynValue::Dict(vec![(text("a"), DynValue::List(vec![DynValue::Int(1)]))]);
    assert_eq!(
        to_cql(&v),
        Ok(CqlValue::MapOf(vec![(CqlValue::Text("a".to_string()), CqlValue::List(vec![CqlValue::Int(1)]))]))
    );
}

#[test]
fn to_cql_fails_on_unsupported_type() {
    let v = DynValue::List(vec![DynValue::Other("set".to_string())]);
    assert_eq!(to_cql(&v), Err(EncodeError::UnsupportedType("set".to_string())));
}

#[test]
fn dict_to_encodables_encodes_each_value() {
    let d = Some(vec![(text("id"), DynValue::Int(3)), (text("at"), DynValue::Int(2_000_000_000_000))]);
    assert_eq!(
        dict_to_encodables(&d),
        Ok(vec![
            ("id".to_string(), Encodable::Int32(3)),
            ("at".to_string(), Encodable::Timestamp { seconds: 2_000_000_000, nanoseconds: 0 }),
        ])
    );
    assert_eq!(dict_to_encodables(&None), Ok(vec![]));
}

#[test]
fn dict_to_encodables_rejects_non_text_key() {
    let d = Some(vec![(DynValue::Int(1), DynValue::Int(3))]);
    assert_eq!(dict_to_encodables(&d), Err(EncodeError::KeyNotText));
}

#[test]
fn dict_to_values_converts_each_value() {
    let d = Some(vec![(text("k"), DynValue::Bool(false))]);
    assert_eq!(dict_to_values(&d), Ok(vec![("k".to_string(), CqlValue::Boolean(false))]));
    let bad = Some(vec![(text("k"), DynValue::Other("object".to_string()))]);
    assert_eq!(dict_to_values(&bad), Err(EncodeError::UnsupportedType("object".to_string())));
    assert_eq!(dict_to_values(&None), Ok(vec![]));
}
