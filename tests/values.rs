use sam::context::Context;
use sam::error::ErrorKind;
use sam::ffi::{ForeignReply, Json, ManifestReply, Shell, ShellReply, FFI};
use sam::float::Float;
use sam::operator::{apply_binary, BinaryOp};
use sam::value::{ForeignFunction, Number, Value};
use std::cmp::Ordering;

fn ival(i: i64) -> Value {
    Value::SamNumber(Number::SamInt(i))
}

fn fval(f: f64) -> Value {
    Value::SamNumber(Number::SamFloat(Float::from_bits(f.to_bits())))
}

fn sval(s: &str) -> Value {
    Value::SamString(s.to_string())
}

fn as_int(v: &Value) -> i64 {
    match v {
        Value::SamNumber(Number::SamInt(i)) => *i,
        other => panic!("expected an integer, got {:?}", other),
    }
}

fn as_float(v: &Value) -> f64 {
    match v {
        Value::SamNumber(Number::SamFloat(f)) => f64::from_bits(f.to_bits()),
        other => panic!("expected a float, got {:?}", other),
    }
}

fn is_undefined(v: &Value) -> bool {
    matches!(v, Value::Undefined)
}

#[test]
fn integer_arithmetic_stays_integer() {
    assert_eq!(as_int(&ival(2).add(ival(3))), 5);
    assert_eq!(as_int(&ival(2).sub(ival(3))), -1);
    assert_eq!(as_int(&ival(4).mul(ival(3))), 12);
}

#[test]
fn integer_division_yields_float() {
    assert_eq!(as_float(&ival(7).div(ival(2))), 3.5);
    assert_eq!(as_float(&ival(6).div(ival(3))), 2.0);
}

#[test]
fn integer_remainder_truncates() {
    assert_eq!(as_int(&ival(7).rem(ival(3))), 1);
    assert_eq!(as_int(&ival(-7).rem(ival(3))), -1);
    assert_eq!(as_int(&ival(7).rem(ival(-3))), 1);
    assert_eq!(as_int(&ival(i64::MIN).rem(ival(-1))), 0);
}

#[test]
fn division_and_remainder_by_zero_are_undefined() {
    assert!(is_undefined(&ival(7).rem(ival(0))));
    assert!(is_undefined(&ival(7).div(ival(0))));
    assert!(is_undefined(&fval(7.5).rem(fval(0.0))));
    assert!(is_undefined(&fval(7.5).rem(fval(-0.0))));
    assert!(is_undefined(&ival(1).div(fval(0.0))));
}

#[test]
fn float_remainder_is_euclidean() {
    assert_eq!(as_float(&fval(-7.0).rem(ival(3))), 2.0);
    assert_eq!(as_float(&fval(7.5).rem(ival(2))), 1.5);
    assert_eq!(as_float(&ival(-7).rem(fval(-3.0))), 2.0);
}

#[test]
fn mixed_arithmetic_promotes_to_float() {
    assert_eq!(as_float(&ival(1).add(fval(2.5))), 3.5);
    assert_eq!(as_float(&fval(2.5).sub(ival(1))), 1.5);
    assert_eq!(as_float(&ival(3).mul(fval(0.5))), 1.5);
}

#[test]
fn three_equals_three_point_zero() {
    let r = apply_binary(BinaryOp::Eq, ival(3), fval(3.0)).unwrap();
    assert_eq!(as_int(&r), 1);
    let r = apply_binary(BinaryOp::Ne, ival(3), fval(3.0)).unwrap();
    assert_eq!(as_int(&r), 0);
    assert!(ival(3).eq(&fval(3.0)));
}

#[test]
fn strings_concatenate() {
    match sval("hello").add(sval(" world")) {
        Value::SamString(s) => assert_eq!(s, "hello world"),
        other => panic!("unexpected {:?}", other),
    }
}

#[test]
fn mismatched_arithmetic_is_undefined() {
    assert!(is_undefined(&sval("a").add(ival(1))));
    assert!(is_undefined(&sval("a").sub(sval("b"))));
    assert!(is_undefined(&Value::Undefined.mul(ival(2))));
}

#[test]
fn comparisons_order_numbers() {
    assert_eq!(as_int(&apply_binary(BinaryOp::Lt, ival(1), ival(2)).unwrap()), 1);
    assert_eq!(as_int(&apply_binary(BinaryOp::Ge, ival(1), fval(1.0)).unwrap()), 1);
    assert_eq!(as_int(&apply_binary(BinaryOp::Gt, fval(0.5), ival(1)).unwrap()), 0);
    assert_eq!(ival(1).partial_cmp(&fval(1.5)), Some(Ordering::Less));
}

#[test]
fn comparing_non_numbers_fails() {
    assert_eq!(
        apply_binary(BinaryOp::Lt, sval("a"), sval("b")).unwrap_err(),
        ErrorKind::Incomparable
    );
}

#[test]
fn logical_operators_use_integer_truth() {
    assert_eq!(as_int(&apply_binary(BinaryOp::And, ival(2), ival(0)).unwrap()), 0);
    assert_eq!(as_int(&apply_binary(BinaryOp::Or, ival(2), ival(0)).unwrap()), 1);
    assert_eq!(
        apply_binary(BinaryOp::And, sval("x"), ival(1)).unwrap_err(),
        ErrorKind::NotLogical
    );
}

#[test]
fn equality_is_structural() {
    assert!(Value::Undefined.eq(&Value::Undefined));
    assert!(!Value::Undefined.eq(&ival(0)));
    assert!(sval("a").eq(&sval("a")));
    let a = Value::SamArray(vec![ival(1), sval("x")]);
    let b = Value::SamArray(vec![fval(1.0), sval("x")]);
    assert!(a.eq(&b));
    let c = Value::SamArray(vec![ival(1)]);
    assert!(!a.eq(&c));
    let o1 = Value::SamObject(vec![("k".to_string(), ival(1)), ("j".to_string(), ival(2))]);
    let o2 = Value::SamObject(vec![("j".to_string(), ival(2)), ("k".to_string(), ival(1))]);
    let o3 = Value::SamObject(vec![("j".to_string(), ival(2)), ("k".to_string(), ival(5))]);
    assert!(o1.eq(&o2));
    assert!(!o1.eq(&o3));
}

#[test]
fn booleans_become_integers() {
    assert_eq!(as_int(&Value::from(true)), 1);
    assert_eq!(as_int(&Value::from(false)), 0);
}

#[test]
fn attribute_access() {
    let o = Value::SamObject(vec![("k".to_string(), ival(7))]);
    assert_eq!(as_int(&o.get_attribute(&"k".to_string()).unwrap()), 7);
    assert_eq!(o.get_attribute(&"z".to_string()).unwrap_err(), ErrorKind::UnknownAttribute);
    assert_eq!(
        ival(1).get_attribute(&"k".to_string()).unwrap_err(),
        ErrorKind::NotAttributable
    );
}

#[test]
fn values_render_as_text() {
    assert_eq!(ival(-42).to_text(), "-42");
    assert_eq!(ival(0).to_text(), "0");
    assert_eq!(sval("hi").to_text(), "hi");
    assert_eq!(Value::Undefined.to_text(), "undefined");
    assert_eq!(Value::SamArray(vec![ival(1), ival(2), sval("x")]).to_text(), "1,2,x");
    assert_eq!(Value::SamArray(vec![]).to_text(), "");
}

#[test]
fn command_line_appends_arguments() {
    let f = ForeignFunction { cmd: "echo".to_string() };
    assert_eq!(FFI::command_line(&f, &vec![ival(1), sval("a b")]), "echo 1 a b");
    assert_eq!(FFI::command_line(&f, &vec![]), "echo ");
}

#[test]
fn shell_arguments_are_texts() {
    assert_eq!(Shell::arguments(&vec![ival(3), sval("x")]), vec!["3".to_string(), "x".to_string()]);
}

#[test]
fn json_converts_to_values() {
    let j = Json::Object(vec![
        ("n".to_string(), Json::Null),
        ("t".to_string(), Json::Bool(true)),
        ("i".to_string(), Json::Int(4)),
        ("f".to_string(), Json::Float(Float::from_bits(0.25f64.to_bits()))),
        ("a".to_string(), Json::Array(vec![Json::Int(1), Json::Str("s".to_string())])),
    ]);
    let v = FFI::json_to_value(&j);
    let get = |k: &str| v.get_attribute(&k.to_string()).unwrap();
    assert!(is_undefined(&get("n")));
    assert_eq!(as_int(&get("t")), 1);
    assert_eq!(as_int(&get("i")), 4);
    assert_eq!(as_float(&get("f")), 0.25);
    assert!(get("a").eq(&Value::SamArray(vec![ival(1), sval("s")])));
}

#[test]
fn foreign_results() {
    assert_eq!(as_int(&FFI::call(&ForeignReply::Parsed(Json::Int(42))).unwrap()), 42);
    assert_eq!(FFI::call(&ForeignReply::NotJson).unwrap_err(), ErrorKind::ForeignOutput);
    assert_eq!(FFI::call(&ForeignReply::SpawnFailed).unwrap_err(), ErrorKind::SpawnFailed);
}

#[test]
fn shell_results_are_objects() {
    let r = Shell::call(&ShellReply::Finished {
        stdout: "out".to_string(),
        stderr: "err".to_string(),
        status: None,
    })
    .unwrap();
    assert!(r.get_attribute(&"stdout".to_string()).unwrap().eq(&sval("out")));
    assert!(r.get_attribute(&"stderr".to_string()).unwrap().eq(&sval("err")));
    assert_eq!(as_int(&r.get_attribute(&"status".to_string()).unwrap()), -1);
    assert_eq!(Shell::call(&ShellReply::SpawnFailed).unwrap_err(), ErrorKind::SpawnFailed);
}

#[test]
fn manifest_entries() {
    let m = Json::Object(vec![
        ("bar".to_string(), Json::Str("echo 42".to_string())),
        ("num".to_string(), Json::Int(1)),
    ]);
    assert_eq!(FFI::interface_command(&m, &"bar".to_string()).unwrap(), "echo 42");
    assert_eq!(
        FFI::interface_command(&m, &"num".to_string()).unwrap_err(),
        ErrorKind::InterfaceEntry
    );
    assert_eq!(
        FFI::interface_command(&m, &"zzz".to_string()).unwrap_err(),
        ErrorKind::InterfaceEntry
    );
    assert_eq!(
        FFI::interface_command(&Json::Int(3), &"bar".to_string()).unwrap_err(),
        ErrorKind::InterfaceEntry
    );
}

#[test]
fn registering_installs_globally() {
    let mut ctx = Context::new();
    ctx.push_scope();
    let m = Json::Object(vec![("bar".to_string(), Json::Str("echo 42".to_string()))]);
    FFI::register_ffi(&ManifestReply::Parsed(m), &"bar".to_string(), &mut ctx).unwrap();
    ctx.pop_scope();
    match ctx.lookup(&"bar".to_string()) {
        Some(Value::SamForeignFunction(f)) => assert_eq!(f.cmd, "echo 42"),
        other => panic!("unexpected {:?}", other),
    }
    assert_eq!(
        FFI::register_ffi(&ManifestReply::Unreadable, &"bar".to_string(), &mut ctx).unwrap_err(),
        ErrorKind::ManifestUnreadable
    );
    assert_eq!(
        FFI::register_ffi(&ManifestReply::Invalid, &"bar".to_string(), &mut ctx).unwrap_err(),
        ErrorKind::ManifestInvalid
    );
}

#[test]
fn nested_declarations_do_not_leak() {
    let mut ctx = Context::new();
    ctx.declare("x".to_string(), ival(1));
    ctx.push_scope();
    ctx.declare("x".to_string(), ival(2));
    assert_eq!(as_int(&ctx.lookup(&"x".to_string()).unwrap()), 2);
    ctx.pop_scope();
    assert_eq!(as_int(&ctx.lookup(&"x".to_string()).unwrap()), 1);
    assert_eq!(ctx.depth(), 1);
}

#[test]
fn assignment_updates_the_resolving_frame() {
    let mut ctx = Context::new();
    ctx.declare("x".to_string(), ival(1));
    ctx.push_scope();
    assert!(ctx.assign("x".to_string(), ival(5)));
    assert!(!ctx.assign("y".to_string(), ival(5)));
    ctx.pop_scope();
    assert_eq!(as_int(&ctx.lookup(&"x".to_string()).unwrap()), 5);
    assert!(ctx.lookup(&"y".to_string()).is_none());
    assert_eq!(ctx.search_in_stack(&"x".to_string()), Some(0));
}

#[test]
fn floats_render_as_decimal_text() {
    let t = fval(2.5).to_text();
    assert_eq!(t.parse::<f64>().unwrap(), 2.5);
    let t = fval(-0.125).to_text();
    assert_eq!(t.parse::<f64>().unwrap(), -0.125);
}

#[test]
fn remainder_law_on_samples() {
    for (a, b) in [(7i64, 3i64), (-7, 3), (7, -3), (-7, -3), (0, 5), (5, 7)] {
        let r = as_int(&ival(a).rem(ival(b)));
        assert_eq!(r, a % b);
        assert_eq!(as_float(&ival(a).div(ival(b))), a as f64 / b as f64);
        assert!(is_undefined(&ival(a).rem(ival(0))));
    }
}

#[test]
fn objects_with_different_keys_differ() {
    let a = Value::SamObject(vec![("k".to_string(), ival(1)), ("k".to_string(), ival(1))]);
    let b = Value::SamObject(vec![("k".to_string(), ival(1)), ("j".to_string(), ival(2))]);
    assert!(!a.eq(&b));
    assert!(!b.eq(&a));
}
