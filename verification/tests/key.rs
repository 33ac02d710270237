use polars_join::datatypes::{AnyValue, DataType};
use polars_join::hash_join::encode_keys;
use polars_join::key::encode_cell;
use polars_join::series::Series;

fn key(v: AnyValue) -> Vec<u8> {
    let mut out = Vec::new();
    encode_cell(&v, &mut out);
    out
}

#[test]
fn keys_have_a_tag_and_a_payload() {
    assert_eq!(key(AnyValue::Null), vec![0]);
    assert_eq!(key(AnyValue::Boolean(true)), vec![1, 1]);
    assert_eq!(key(AnyValue::Boolean(false)), vec![1, 0]);
    assert_eq!(key(AnyValue::UInt8(7)), vec![2, 7, 0, 0, 0, 0, 0, 0, 0]);
    assert_eq!(key(AnyValue::UInt32(0x0102_0304)), vec![4, 4, 3, 2, 1, 0, 0, 0, 0]);
    assert_eq!(key(AnyValue::Int32(0)), vec![8, 0, 0, 0, 0, 0, 0, 0, 0x80]);
    assert_eq!(key(AnyValue::Int32(-1)), vec![8, 0xff, 0xff, 0xff, 0xff, 0xff, 0xff, 0xff, 0x7f]);
    assert_eq!(key(AnyValue::Int64(i64::MIN)), vec![9, 0, 0, 0, 0, 0, 0, 0, 0]);
    assert_eq!(key(AnyValue::Int64(i64::MAX)), vec![9, 0xff, 0xff, 0xff, 0xff, 0xff, 0xff, 0xff, 0xff]);
    assert_eq!(key(AnyValue::Categorical(2)), vec![14, 2, 0, 0, 0, 0, 0, 0, 0]);
    assert_eq!(
        key(AnyValue::Utf8("hé".to_string())),
        vec![12, 3, 0, 0, 0, 0, 0, 0, 0, b'h', 0xc3, 0xa9]
    );
}

#[test]
fn floats_are_keyed_by_their_bits() {
    assert_ne!(key(AnyValue::Float64(0.0f64.to_bits())), key(AnyValue::Float64((-0.0f64).to_bits())));
    assert_eq!(key(AnyValue::Float64(f64::NAN.to_bits())), key(AnyValue::Float64(f64::NAN.to_bits())));
    assert_eq!(key(AnyValue::Float32(1.5f32.to_bits())), vec![10, 0, 0, 0xc0, 0x3f, 0, 0, 0, 0]);
}

#[test]
fn cells_of_different_types_have_different_keys() {
    assert_ne!(key(AnyValue::Int32(1)), key(AnyValue::Int64(1)));
    assert_ne!(key(AnyValue::UInt8(1)), key(AnyValue::Boolean(true)));
    assert_ne!(key(AnyValue::Utf8(String::new())), key(AnyValue::Null));
}

#[test]
fn tuple_keys_do_not_run_into_each_other() {
    let a = Series::new("a", DataType::Utf8, vec![AnyValue::Utf8("ab".into()), AnyValue::Utf8("a".into())]).unwrap();
    let b = Series::new("b", DataType::Utf8, vec![AnyValue::Utf8("c".into()), AnyValue::Utf8("bc".into())]).unwrap();
    let keys = encode_keys(&vec![&a, &b], 2);
    assert_eq!(keys.len(), 2);
    assert_ne!(keys[0], keys[1]);
    assert_eq!(keys[0][..12], [12, 2, 0, 0, 0, 0, 0, 0, 0, b'a', b'b', 12]);
}
