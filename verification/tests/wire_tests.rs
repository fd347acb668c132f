use param_server::value::Value;
use param_server::wire::{LegacyVariant, ParameterValue};

fn round_trip(v: &Value) -> Value {
    Value::from_wire(&ParameterValue::from_value(v))
}

#[test]
fn round_trip_scalars() {
    assert!(matches!(round_trip(&Value::NotSet), Value::NotSet));
    assert!(matches!(round_trip(&Value::Bool(true)), Value::Bool(true)));
    assert!(matches!(round_trip(&Value::I64(-42)), Value::I64(-42)));
    let bits = 3.25f64.to_bits();
    assert!(matches!(round_trip(&Value::F64(bits)), Value::F64(b) if b == bits));
    assert!(
        matches!(round_trip(&Value::String("hello".to_string())), Value::String(ref s) if s == "hello")
    );
}

#[test]
fn round_trip_sequences() {
    let bytes = vec![0u8, 1, 255];
    assert!(matches!(round_trip(&Value::VecU8(bytes.clone())), Value::VecU8(ref v) if *v == bytes));
    let bools = vec![true, false, true];
    assert!(
        matches!(round_trip(&Value::VecBool(bools.clone())), Value::VecBool(ref v) if *v == bools)
    );
    let ints = vec![i64::MIN, 0, i64::MAX];
    assert!(matches!(round_trip(&Value::VecI64(ints.clone())), Value::VecI64(ref v) if *v == ints));
    let doubles: Vec<u64> = [0.5f64, -1.25, f64::INFINITY].iter().map(|x| x.to_bits()).collect();
    assert!(
        matches!(round_trip(&Value::VecF64(doubles.clone())), Value::VecF64(ref v) if *v == doubles)
    );
    let strs = vec!["a".to_string(), "".to_string(), "c".to_string()];
    assert!(
        matches!(round_trip(&Value::VecString(strs.clone())), Value::VecString(ref v) if *v == strs)
    );
}

#[test]
fn encode_fills_only_the_tagged_field() {
    let w = ParameterValue::from_value(&Value::I64(9));
    assert_eq!(w.type_, 2);
    assert_eq!(w.integer_value, 9);
    assert!(!w.bool_value);
    assert_eq!(w.double_value, 0);
    assert_eq!(w.string_value, "");
    assert!(w.byte_array_value.is_empty());
    assert!(w.bool_array_value.is_empty());
    assert!(w.integer_array_value.is_empty());
    assert!(w.double_array_value.is_empty());
    assert!(w.string_array_value.is_empty());
}

#[test]
fn unknown_discriminator_collapses_to_not_set() {
    let mut w = ParameterValue::new();
    w.type_ = 17;
    w.integer_value = 5;
    assert!(matches!(Value::from_wire(&w), Value::NotSet));
}

#[test]
fn discriminators_match_the_wire_contract() {
    assert_eq!(ParameterValue::from_value(&Value::NotSet).type_, 0);
    assert_eq!(ParameterValue::from_value(&Value::Bool(true)).type_, 1);
    assert_eq!(ParameterValue::from_value(&Value::I64(0)).type_, 2);
    assert_eq!(ParameterValue::from_value(&Value::F64(0)).type_, 3);
    assert_eq!(ParameterValue::from_value(&Value::String(String::new())).type_, 4);
    assert_eq!(ParameterValue::from_value(&Value::VecU8(vec![])).type_, 5);
    assert_eq!(ParameterValue::from_value(&Value::VecBool(vec![])).type_, 6);
    assert_eq!(ParameterValue::from_value(&Value::VecI64(vec![])).type_, 7);
    assert_eq!(ParameterValue::from_value(&Value::VecF64(vec![])).type_, 8);
    assert_eq!(ParameterValue::from_value(&Value::VecString(vec![])).type_, 9);
}

fn empty_legacy() -> LegacyVariant {
    LegacyVariant {
        bool_value: None,
        integer_value: None,
        double_value: None,
        string_value: None,
        bool_array_value: None,
        integer_array_value: None,
        byte_array_value: None,
        double_array_value: None,
        string_array_value: None,
    }
}

#[test]
fn legacy_variant_priority_order() {
    let mut f = empty_legacy();
    f.integer_value = Some(3);
    f.double_value = Some(1.0f64.to_bits());
    // The integer field wins over the double field.
    assert!(matches!(Value::from_legacy(f), Value::I64(3)));

    let mut g = empty_legacy();
    g.bool_value = Some(true);
    g.string_value = Some("x".to_string());
    assert!(matches!(Value::from_legacy(g), Value::Bool(true)));

    let mut h = empty_legacy();
    h.string_array_value = Some(vec!["s".to_string()]);
    assert!(matches!(Value::from_legacy(h), Value::VecString(ref v) if v == &vec!["s".to_string()]));

    assert!(matches!(Value::from_legacy(empty_legacy()), Value::NotSet));
}
