use cql_marshal::encode::{encode, encode_float64, encode_int, EncodeError, Encodable};
use cql_marshal::value::DynValue;

fn text(s: &str) -> DynValue {
    DynValue::Text(s.to_string())
}

#[test]
fn encode_true_is_boolean() {
    assert_eq!(encode(&DynValue::Bool(true)), Ok(Encodable::Boolean(true)));
    assert_eq!(encode(&DynValue::Bool(false)), Ok(Encodable::Boolean(false)));
}

#[test]
fn encode_null_text_bytes() {
    assert_eq!(encode(&DynValue::Null), Ok(Encodable::Null));
    assert_eq!(encode(&text("x")), Ok(Encodable::Text("x".to_string())));
    assert_eq!(encode(&DynValue::Bytes(vec![0, 255])), Ok(Encodable::Blob(vec![0, 255])));
}

#[test]
fn encode_int_below_seconds_window() {
    assert_eq!(encode_int(999_999_999), Encodable::Int32(999_999_999));
}

#[test]
fn encode_int_at_seconds_window_start_fits_32_bits() {
    // The 32-bit probe comes before the timestamp heuristic.
    assert_eq!(encode_int(1_000_000_000), Encodable::Int32(1_000_000_000));
}

#[test]
fn encode_int_in_seconds_window_is_timestamp() {
    assert_eq!(encode_int(3_000_000_000), Encodable::Timestamp { seconds: 3_000_000_000, nanoseconds: 0 });
    assert_eq!(encode_int(4_102_444_799), Encodable::Timestamp { seconds: 4_102_444_799, nanoseconds: 0 });
}

#[test]
fn encode_int_at_upper_bound_is_int64() {
    assert_eq!(encode_int(4_102_444_800), Encodable::Int64(4_102_444_800));
}

#[test]
fn encode_int_in_millis_window_is_timestamp() {
    assert_eq!(
        encode(&DynValue::Int(1_700_000_000_123)),
        Ok(Encodable::Timestamp { seconds: 1_700_000_000, nanoseconds: 123_000_000 })
    );
    assert_eq!(encode_int(4_102_444_800_000), Encodable::Int64(4_102_444_800_000));
    assert_eq!(encode_int(-5_000_000_000), Encodable::Int64(-5_000_000_000));
}

#[test]
fn encode_float32_stays_float() {
    let f: f32 = 1.5;
    assert_eq!(encode(&DynValue::Float32(f.to_bits())), Ok(Encodable::Float32(f.to_bits())));
}

#[test]
fn encode_float64_in_window_is_timestamp() {
    let f: f64 = 1_700_000_000.5;
    assert_eq!(encode_float64(f.to_bits()), Encodable::Timestamp { seconds: 1_700_000_000, nanoseconds: 500_000_000 });
    let g: f64 = 1.25;
    assert_eq!(encode_float64(g.to_bits()), Encodable::Timestamp { seconds: 1, nanoseconds: 250_000_000 });
    let tiny: f64 = 1e-300;
    assert_eq!(encode_float64(tiny.to_bits()), Encodable::Timestamp { seconds: 0, nanoseconds: 0 });
}

#[test]
fn encode_float64_outside_window_stays_float() {
    for f in [0.0f64, -1.5, 4_102_444_800.0, 5e9, f64::NAN, f64::INFINITY] {
        assert_eq!(encode_float64(f.to_bits()), Encodable::Float64(f.to_bits()));
    }
}

#[test]
fn encode_list_recursively() {
    let v = DynValue::List(vec![DynValue::Int(1), text("a")]);
    assert_eq!(encode(&v), Ok(Encodable::List(vec![Encodable::Int32(1), Encodable::Text("a".to_string())])));
}

#[test]
fn encode_list_fails_on_any_element() {
    let v = DynValue::List(vec![DynValue::Int(1), DynValue::Other("tuple".to_string())]);
    assert_eq!(encode(&v), Err(EncodeError::UnsupportedType("tuple".to_string())));
}

#[test]
fn encode_unknown_type_fails() {
    assert_eq!(
        encode(&DynValue::Other("datetime".to_string())),
        Err(EncodeError::UnsupportedType("datetime".to_string()))
    );
}

#[test]
fn encode_text_map() {
    let v = DynValue::Dict(vec![(text("a"), text("x")), (text("b"), text("y"))]);
    assert_eq!(
        encode(&v),
        Ok(Encodable::TextMap(vec![("a".to_string(), "x".to_string()), ("b".to_string(), "y".to_string())]))
    );
}

#[test]
fn encode_int_map() {
    let v = DynValue::Dict(vec![(text("a"), DynValue::Int(1)), (text("b"), DynValue::Bool(true))]);
    assert_eq!(encode(&v), Ok(Encodable::IntMap(vec![("a".to_string(), 1), ("b".to_string(), 1)])));
}

#[test]
fn encode_mixed_map_falls_back_to_empty_text_map() {
    let v = DynValue::Dict(vec![(text("a"), DynValue::Int(1)), (text("b"), text("x"))]);
    assert_eq!(encode(&v), Ok(Encodable::TextMap(vec![])));
}

#[test]
fn encode_empty_or_non_text_keyed_map_is_empty_text_map() {
    assert_eq!(encode(&DynValue::Dict(vec![])), Ok(Encodable::TextMap(vec![])));
    let v = DynValue::Dict(vec![(DynValue::Int(1), text("x"))]);
    assert_eq!(encode(&v), Ok(Encodable::TextMap(vec![])));
}

#[test]
fn encode_float64_rounds_nanoseconds_as_a_float_product() {
    let f: f64 = 0.3;
    assert_eq!(encode_float64(f.to_bits()), Encodable::Timestamp { seconds: 0, nanoseconds: 300_000_000 });
    let g: f64 = 1_700_000_000.3;
    assert_eq!(
        encode_float64(g.to_bits()),
        Encodable::Timestamp { seconds: g as i64, nanoseconds: (g.fract() * 1_000_000_000.0) as u32 }
    );
}

#[test]
fn encode_float64_matches_float_arithmetic() {
    let mut f: f64 = 1e-12;
    while f < 4_102_444_800.0 {
        for x in [f, f * 1.1, f * 3.7, f + 0.1, f + 0.3, f + 0.7, f + 0.999_999_999_9] {
            if x > 0.0 && x < 4_102_444_800.0 {
                let expected = Encodable::Timestamp {
                    seconds: x as i64,
                    nanoseconds: (x.fract() * 1_000_000_000.0) as u32,
                };
                assert_eq!(encode_float64(x.to_bits()), expected, "for {}", x);
            }
        }
        f *= 1.7;
    }
}
