use param_server::range::{FloatingPointRange, IntegerRange};
use param_server::store::{ParamError, Parameters, RemoteSetStatus};
use param_server::value::Value;

#[test]
fn create_and_get() {
    let mut p = Parameters::new();
    assert!(p.set_parameter("speed".to_string(), Value::I64(10), false, None).is_ok());
    let param = p.get("speed").unwrap();
    assert!(matches!(param.value, Value::I64(10)));
    assert!(!param.descriptor.read_only);
    assert!(!param.descriptor.dynamic_typing);
    assert_eq!(param.descriptor.description, "speed");
}

#[test]
fn not_set_rejected_statically() {
    let mut p = Parameters::new();
    assert_eq!(
        p.set_parameter("x".to_string(), Value::NotSet, false, None),
        Err(ParamError::InvalidValue)
    );
    assert!(p.get("x").is_none());
}

#[test]
fn static_type_preserved_on_set() {
    let mut p = Parameters::new();
    p.set_parameter("mode".to_string(), Value::String("idle".to_string()), false, None).unwrap();
    // An accepted assignment carries the same tag.
    assert!(p.set_parameter("mode".to_string(), Value::String("run".to_string()), false, None).is_ok());
    assert!(matches!(p.get("mode").unwrap().value, Value::String(ref s) if s == "run"));
    // A differently tagged assignment is refused and changes nothing.
    assert_eq!(
        p.set_parameter("mode".to_string(), Value::I64(3), false, None),
        Err(ParamError::TypeMismatch)
    );
    assert!(matches!(p.get("mode").unwrap().value, Value::String(ref s) if s == "run"));
}

#[test]
fn read_only_value_never_changes() {
    let mut p = Parameters::new();
    p.set_parameter("fixed".to_string(), Value::Bool(true), true, None).unwrap();
    assert_eq!(
        p.set_parameter("fixed".to_string(), Value::Bool(false), false, None),
        Err(ParamError::ReadOnly)
    );
    assert_eq!(p.remote_set("fixed", Value::Bool(false)), RemoteSetStatus::ReadOnly);
    assert!(matches!(p.get("fixed").unwrap().value, Value::Bool(true)));
}

#[test]
fn typing_mode_mismatch_both_ways() {
    let mut p = Parameters::new();
    p.set_parameter("s".to_string(), Value::I64(1), false, None).unwrap();
    p.set_dynamically_typed_parameter("d".to_string(), Value::I64(1), false, None).unwrap();
    assert_eq!(
        p.set_dynamically_typed_parameter("s".to_string(), Value::I64(2), false, None),
        Err(ParamError::TypingModeMismatch)
    );
    assert_eq!(
        p.set_parameter("d".to_string(), Value::I64(2), false, None),
        Err(ParamError::TypingModeMismatch)
    );
}

#[test]
fn dynamic_parameter_changes_variant() {
    let mut p = Parameters::new();
    p.set_dynamically_typed_parameter("dyn".to_string(), Value::I64(1), false, None).unwrap();
    assert!(
        p.set_dynamically_typed_parameter(
            "dyn".to_string(),
            Value::F64(1.5f64.to_bits()),
            false,
            None
        ).is_ok()
    );
    let v = &p.get("dyn").unwrap().value;
    assert!(matches!(v, Value::F64(b) if *b == 1.5f64.to_bits()));
}

#[test]
fn integer_range_enforced() {
    let mut p = Parameters::new();
    p.set_parameter("speed".to_string(), Value::I64(10), false, None).unwrap();
    assert!(p.set_integer_range("speed", 0, 100, 5).is_ok());
    assert!(p.set_parameter("speed".to_string(), Value::I64(25), false, None).is_ok());
    assert_eq!(
        p.set_parameter("speed".to_string(), Value::I64(27), false, None),
        Err(ParamError::RangeViolation)
    );
    assert!(matches!(p.get("speed").unwrap().value, Value::I64(25)));
}

#[test]
fn integer_range_on_arrays() {
    let mut p = Parameters::new();
    p.set_parameter("xs".to_string(), Value::VecI64(vec![0, 5, 10]), false, None).unwrap();
    p.set_integer_range("xs", 0, 10, 5).unwrap();
    assert!(p.set_parameter("xs".to_string(), Value::VecI64(vec![10, 0]), false, None).is_ok());
    assert_eq!(
        p.set_parameter("xs".to_string(), Value::VecI64(vec![10, 3]), false, None),
        Err(ParamError::RangeViolation)
    );
}

#[test]
fn integer_range_attachment_guards() {
    let mut p = Parameters::new();
    assert_eq!(p.set_integer_range("nope", 0, 10, 1), Err(ParamError::UnknownParameter));
    p.set_parameter("s".to_string(), Value::String("x".to_string()), false, None).unwrap();
    assert_eq!(p.set_integer_range("s", 0, 10, 1), Err(ParamError::InvalidRangeAttachment));
    p.set_parameter("n".to_string(), Value::I64(7), false, None).unwrap();
    // A zero stride is refused at attachment.
    assert_eq!(p.set_integer_range("n", 0, 10, 0), Err(ParamError::InvalidRangeAttachment));
    // The current value must satisfy the prospective range.
    assert_eq!(p.set_integer_range("n", 0, 10, 2), Err(ParamError::RangeViolation));
    assert!(p.set_integer_range("n", 0, 10, 7).is_ok());
}

#[test]
fn integer_range_contains_exactly() {
    let r = IntegerRange { min: 0, max: 100, step: 5 };
    assert!(r.contains(0));
    assert!(r.contains(25));
    assert!(r.contains(100));
    assert!(!r.contains(27));
    assert!(!r.contains(-5));
    assert!(!r.contains(105));
    let wide = IntegerRange { min: i64::MIN, max: i64::MAX, step: 1 };
    assert!(wide.contains(i64::MIN));
    assert!(wide.contains(i64::MAX));
}

#[test]
fn float_range_enforced_through_bits() {
    let mut p = Parameters::new();
    p.set_parameter("f".to_string(), Value::F64(5.0f64.to_bits()), false, None).unwrap();
    assert!(
        p.set_floating_point_range(
            "f",
            0.0f64.to_bits(),
            10.0f64.to_bits(),
            0.0f64.to_bits()
        ).is_ok()
    );
    assert!(p.set_parameter("f".to_string(), Value::F64(7.25f64.to_bits()), false, None).is_ok());
    assert_eq!(
        p.set_parameter("f".to_string(), Value::F64(10.5f64.to_bits()), false, None),
        Err(ParamError::RangeViolation)
    );
}

#[test]
fn float_range_stride_uses_fmod() {
    // A stride of 2.5 over [0, 10]: 7.5 is on the stride, 6.0 is not.
    // This fails if the comparison, subtraction or remainder were not the
    // IEEE operations.
    let r = FloatingPointRange {
        min: 0.0f64.to_bits(),
        max: 10.0f64.to_bits(),
        step: 2.5f64.to_bits(),
    };
    assert!(r.contains(7.5f64.to_bits()));
    assert!(!r.contains(6.0f64.to_bits()));
    assert!(!r.contains(11.0f64.to_bits()));
    // A zero stride only checks the bounds.
    let z = FloatingPointRange {
        min: 0.0f64.to_bits(),
        max: 10.0f64.to_bits(),
        step: 0.0f64.to_bits(),
    };
    assert!(z.contains(6.0f64.to_bits()));
    assert!(!z.contains((-1.0f64).to_bits()));
    // NaN is never contained.
    assert!(!z.contains(f64::NAN.to_bits()));
}

#[test]
fn float_range_attachment_guards() {
    let mut p = Parameters::new();
    p.set_parameter("n".to_string(), Value::I64(1), false, None).unwrap();
    assert_eq!(
        p.set_floating_point_range("n", 0.0f64.to_bits(), 1.0f64.to_bits(), 0),
        Err(ParamError::InvalidRangeAttachment)
    );
    p.set_dynamically_typed_parameter("d".to_string(), Value::Bool(true), false, None).unwrap();
    // A dynamically typed parameter takes any range.
    assert!(p.set_floating_point_range("d", 0.0f64.to_bits(), 1.0f64.to_bits(), 0).is_ok());
}

#[test]
fn set_idempotent() {
    let mut a = Parameters::new();
    let mut b = Parameters::new();
    for p in [&mut a, &mut b] {
        p.set_parameter("x".to_string(), Value::I64(4), false, None).unwrap();
    }
    // Issue the same set once more on b: the observable state stays the same.
    b.set_parameter("x".to_string(), Value::I64(4), false, None).unwrap();
    assert_eq!(a.len(), b.len());
    assert!(matches!(a.get("x").unwrap().value, Value::I64(4)));
    assert!(matches!(b.get("x").unwrap().value, Value::I64(4)));
}

#[test]
fn type_check_and_names() {
    let a = Value::I64(1);
    let b = Value::I64(2);
    let c = Value::F64(1.0f64.to_bits());
    assert!(a.type_check(&b));
    assert!(!a.type_check(&c));
    assert_eq!(a.variant_name(), "I64");
    assert_eq!(c.variant_name(), "F64");
    assert_eq!(Value::NotSet.variant_name(), "NotSet");
    assert_eq!(Value::VecU8(vec![]).variant_name(), "VecU8");
    assert_eq!(Value::VecString(vec![]).variant_name(), "VecString");
}

#[test]
fn dynamic_parameter_accepts_not_set() {
    let mut p = Parameters::new();
    p.set_dynamically_typed_parameter("d".to_string(), Value::I64(1), false, None).unwrap();
    assert!(p.set_dynamically_typed_parameter("d".to_string(), Value::NotSet, false, None).is_ok());
    assert!(matches!(p.get("d").unwrap().value, Value::NotSet));
}

#[test]
fn description_defaults_to_name() {
    let mut p = Parameters::new();
    p.set_parameter("a".to_string(), Value::I64(1), false, Some("the a".to_string())).unwrap();
    p.set_parameter("b".to_string(), Value::I64(1), false, None).unwrap();
    assert_eq!(p.get("a").unwrap().descriptor.description, "the a");
    assert_eq!(p.get("b").unwrap().descriptor.description, "b");
}
