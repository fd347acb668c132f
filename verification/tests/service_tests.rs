use param_server::list::handle_list;
use param_server::service::{handle_describe, handle_get, handle_get_types, handle_set,
    SetRequestItem};
use param_server::store::Parameters;
use param_server::value::Value;
use param_server::wire::ParameterValue;

fn item(name: &str, value: &Value) -> SetRequestItem {
    SetRequestItem { name: name.to_string(), value: ParameterValue::from_value(value) }
}

#[test]
fn remote_set_in_range() {
    let mut p = Parameters::new();
    p.set_parameter("speed".to_string(), Value::I64(10), false, None).unwrap();
    p.set_integer_range("speed", 0, 100, 5).unwrap();
    let ok = handle_set(&mut p, &vec![item("speed", &Value::I64(25))]);
    assert_eq!(ok.len(), 1);
    assert!(ok[0].successful);
    assert_eq!(ok[0].reason, "");
    let bad = handle_set(&mut p, &vec![item("speed", &Value::I64(27))]);
    assert!(!bad[0].successful);
    assert!(bad[0].reason.contains("range"));
    assert!(matches!(p.get("speed").unwrap().value, Value::I64(25)));
}

#[test]
fn remote_set_type_mismatch_names_both_types() {
    let mut p = Parameters::new();
    p.set_parameter("mode".to_string(), Value::String("idle".to_string()), false, None).unwrap();
    let r = handle_set(&mut p, &vec![item("mode", &Value::I64(3))]);
    assert!(!r[0].successful);
    assert!(r[0].reason.contains("String"));
    assert!(r[0].reason.contains("I64"));
    assert!(matches!(p.get("mode").unwrap().value, Value::String(ref s) if s == "idle"));
}

#[test]
fn remote_set_read_only_keeps_value() {
    let mut p = Parameters::new();
    p.set_parameter("fixed".to_string(), Value::Bool(true), true, None).unwrap();
    let r = handle_set(&mut p, &vec![item("fixed", &Value::Bool(false))]);
    assert!(!r[0].successful);
    assert!(r[0].reason.contains("read only"));
    assert!(matches!(p.get("fixed").unwrap().value, Value::Bool(true)));
}

#[test]
fn remote_set_unknown_name() {
    let mut p = Parameters::new();
    let r = handle_set(&mut p, &vec![item("ghost", &Value::I64(1))]);
    assert!(!r[0].successful);
    assert!(r[0].reason.contains("no such parameter"));
}

#[test]
fn remote_set_dynamic_changes_variant() {
    let mut p = Parameters::new();
    p.set_dynamically_typed_parameter("dyn".to_string(), Value::I64(1), false, None).unwrap();
    let r = handle_set(&mut p, &vec![item("dyn", &Value::F64(1.5f64.to_bits()))]);
    assert!(r[0].successful);
    assert!(matches!(p.get("dyn").unwrap().value, Value::F64(b) if b == 1.5f64.to_bits()));
}

#[test]
fn remote_set_batch_is_positional() {
    let mut p = Parameters::new();
    p.set_parameter("a".to_string(), Value::I64(1), false, None).unwrap();
    let r = handle_set(
        &mut p,
        &vec![item("a", &Value::I64(2)), item("missing", &Value::I64(3)), item(
            "a",
            &Value::Bool(true),
        )],
    );
    assert_eq!(r.len(), 3);
    assert!(r[0].successful);
    assert!(!r[1].successful);
    assert!(!r[2].successful);
    assert!(matches!(p.get("a").unwrap().value, Value::I64(2)));
}

#[test]
fn get_skips_unknown_names() {
    let mut p = Parameters::new();
    p.set_parameter("a".to_string(), Value::I64(7), false, None).unwrap();
    let vs = handle_get(&p, &vec!["missing".to_string(), "a".to_string()]);
    assert_eq!(vs.len(), 1);
    assert_eq!(vs[0].type_, 2);
    assert_eq!(vs[0].integer_value, 7);
}

#[test]
fn get_types_positional_with_zero_for_unknown() {
    let mut p = Parameters::new();
    p.set_parameter("a".to_string(), Value::I64(7), false, None).unwrap();
    p.set_parameter("b".to_string(), Value::Bool(true), false, None).unwrap();
    let ts = handle_get_types(
        &p,
        &vec!["a".to_string(), "missing".to_string(), "b".to_string()],
    );
    assert_eq!(ts, vec![2u8, 0u8, 1u8]);
}

#[test]
fn describe_reports_ranges_and_flags() {
    let mut p = Parameters::new();
    p.set_parameter("speed".to_string(), Value::I64(10), false, None).unwrap();
    p.set_integer_range("speed", 0, 100, 5).unwrap();
    p.set_parameter("speed".to_string(), Value::I64(25), false, None).unwrap();
    let ds = handle_describe(&p, &vec!["speed".to_string()]);
    assert_eq!(ds.len(), 1);
    let d = &ds[0];
    assert_eq!(d.name, "speed");
    assert_eq!(d.type_, 2);
    assert_eq!(d.description, "speed");
    assert_eq!(d.additional_constraints, "");
    assert!(!d.read_only);
    assert!(!d.dynamic_typing);
    assert_eq!(d.integer_range.len(), 1);
    assert_eq!(d.integer_range[0].min, 0);
    assert_eq!(d.integer_range[0].max, 100);
    assert_eq!(d.integer_range[0].step, 5);
    assert_eq!(d.floating_point_range.len(), 0);
}

#[test]
fn describe_skips_unknown_names() {
    let p = Parameters::new();
    let ds = handle_describe(&p, &vec!["missing".to_string()]);
    assert_eq!(ds.len(), 0);
}

#[test]
fn list_everything_in_lexicographic_order() {
    let mut p = Parameters::new();
    for n in ["x", "a.b", "a.c"] {
        p.set_parameter(n.to_string(), Value::I64(1), false, None).unwrap();
    }
    let r = handle_list(&p, &vec![], 0);
    assert_eq!(r.names, vec!["a.b", "a.c", "x"]);
    assert_eq!(r.prefixes, vec!["a"]);
}

#[test]
fn list_by_prefix() {
    let mut p = Parameters::new();
    p.set_parameter("a.b".to_string(), Value::I64(1), false, None).unwrap();
    p.set_parameter("a.c".to_string(), Value::I64(2), false, None).unwrap();
    p.set_parameter("x".to_string(), Value::I64(3), false, None).unwrap();
    let r = handle_list(&p, &vec!["a".to_string()], 0);
    assert_eq!(r.names, vec!["a.b", "a.c"]);
    assert_eq!(r.prefixes, vec!["a"]);
}

#[test]
fn list_by_depth() {
    let mut p = Parameters::new();
    p.set_parameter("a".to_string(), Value::I64(1), false, None).unwrap();
    p.set_parameter("a.b".to_string(), Value::I64(2), false, None).unwrap();
    p.set_parameter("a.b.c".to_string(), Value::I64(3), false, None).unwrap();
    // Depth one: only names without a separator.
    let r = handle_list(&p, &vec![], 1);
    assert_eq!(r.names, vec!["a"]);
    // Depth two: names with at most one separator.
    let r2 = handle_list(&p, &vec![], 2);
    assert_eq!(r2.names, vec!["a", "a.b"]);
}

#[test]
fn list_exact_name_matches_prefix() {
    let mut p = Parameters::new();
    p.set_parameter("a.b".to_string(), Value::I64(1), false, None).unwrap();
    let r = handle_list(&p, &vec!["a.b".to_string()], 0);
    assert_eq!(r.names, vec!["a.b"]);
}

#[test]
fn list_on_empty_store() {
    let p = Parameters::new();
    let r = handle_list(&p, &vec![], 0);
    assert!(r.names.is_empty());
    assert!(r.prefixes.is_empty());
}

#[test]
fn list_idempotent_without_mutation() {
    let mut p = Parameters::new();
    for n in ["b.x", "b.y", "c"] {
        p.set_parameter(n.to_string(), Value::I64(1), false, None).unwrap();
    }
    let r1 = handle_list(&p, &vec!["b".to_string()], 0);
    let r2 = handle_list(&p, &vec!["b".to_string()], 0);
    assert_eq!(r1.names, r2.names);
    assert_eq!(r1.prefixes, r2.prefixes);
}

#[test]
fn list_prefixes_deduplicated() {
    let mut p = Parameters::new();
    for n in ["m.a", "m.b", "m.c"] {
        p.set_parameter(n.to_string(), Value::I64(1), false, None).unwrap();
    }
    let r = handle_list(&p, &vec![], 0);
    assert_eq!(r.prefixes, vec!["m"]);
}

#[test]
fn list_orders_by_utf8_bytes() {
    let mut p = Parameters::new();
    // Multi-byte characters sort after ASCII in UTF-8 byte order.
    for n in ["z", "é", "a"] {
        p.set_parameter(n.to_string(), Value::I64(1), false, None).unwrap();
    }
    let r = handle_list(&p, &vec![], 0);
    assert_eq!(r.names, vec!["a", "z", "é"]);
}
