use lib::runtime::{Environment, LoxCallable, Number, VariableValue};
use lib::state;

fn num(v: f64) -> VariableValue {
    VariableValue::Num { value: Number { bits: v.to_bits() } }
}

fn as_num(v: &VariableValue) -> f64 {
    match v {
        VariableValue::Num { value } => f64::from_bits(value.bits),
        _ => panic!("not a number"),
    }
}

#[test]
fn clock_is_defined_globally() {
    let env = Environment::new();
    let v = env.get(0, "clock", 1).unwrap();
    assert!(matches!(v, VariableValue::Function { raw: LoxCallable::NativeClock }));
    assert_eq!(env.len(), 1);
}

#[test]
fn define_then_get() {
    let mut env = Environment::new();
    env.define(0, "a".to_string(), num(1.0));
    assert_eq!(as_num(env.get(0, "a", 1).unwrap()), 1.0);
    env.define(0, "a".to_string(), num(2.0));
    assert_eq!(as_num(env.get(0, "a", 1).unwrap()), 2.0);
}

#[test]
fn undefined_get_reports_line() {
    let env = Environment::new();
    let e = env.get(0, "nope", 7).unwrap_err();
    assert_eq!(e.render(), "Undefined variable 'nope'.\n[line 7]");
}

#[test]
fn inner_scope_sees_and_shadows_outer() {
    let mut env = Environment::new();
    env.define(0, "a".to_string(), num(1.0));
    let inner = env.scope(0);
    assert_eq!(inner, 1);
    assert_eq!(as_num(env.get(inner, "a", 1).unwrap()), 1.0);
    env.define(inner, "a".to_string(), num(5.0));
    assert_eq!(as_num(env.get(inner, "a", 1).unwrap()), 5.0);
    assert_eq!(as_num(env.get(0, "a", 1).unwrap()), 1.0);
    assert_eq!(env.unscope(inner), 0);
    assert_eq!(env.unscope(0), 0);
}

#[test]
fn assign_writes_the_owning_scope() {
    let mut env = Environment::new();
    env.define(0, "a".to_string(), num(1.0));
    let inner = env.scope(0);
    env.assign(inner, "a".to_string(), num(3.0), 1).unwrap();
    assert_eq!(as_num(env.get(0, "a", 1).unwrap()), 3.0);
    let e = env.assign(inner, "b".to_string(), num(3.0), 4).unwrap_err();
    assert_eq!(e.render(), "Undefined variable 'b'.\n[line 4]");
    assert!(env.get(inner, "b", 1).is_err());
}

#[test]
fn get_at_and_assign_at_use_the_distance() {
    let mut env = Environment::new();
    env.define(0, "a".to_string(), num(1.0));
    let s1 = env.scope(0);
    env.define(s1, "a".to_string(), num(2.0));
    let s2 = env.scope(s1);
    assert_eq!(as_num(env.get_at(s2, "a", 1, 1).unwrap()), 2.0);
    assert_eq!(as_num(env.get_at(s2, "a", 2, 1).unwrap()), 1.0);
    assert!(env.get_at(s2, "a", 0, 1).is_err());
    assert!(env.get_at(s2, "a", 3, 1).is_err());
    env.assign_at(s2, "a".to_string(), num(9.0), 2, 1).unwrap();
    assert_eq!(as_num(env.get(0, "a", 1).unwrap()), 9.0);
    assert_eq!(as_num(env.get(s1, "a", 1).unwrap()), 2.0);
    let e = env.assign_at(s2, "a".to_string(), num(9.0), 5, 6).unwrap_err();
    assert_eq!(e.render(), "Undefined variable 'a'.\n[line 6]");
}

#[test]
fn values_and_truthiness() {
    assert!(!VariableValue::Nil.is_truthy());
    assert!(!VariableValue::Boolean { value: false }.is_truthy());
    assert!(num(0.0).is_truthy());
    assert!(VariableValue::Str { value: String::new() }.is_truthy());
    assert_eq!(LoxCallable::NativeClock.arity(), 0);
    let e = num(1.0).into_function(3).unwrap_err();
    assert_eq!(e.render(), "Can only call functions and classes.\n[line 3]");
    assert!(num(1.0).equals(&num(1.0)));
    assert!(!num(f64::NAN).equals(&num(f64::NAN)));
    assert!(num(0.0).equals(&num(-0.0)));
    assert_eq!(num(2.0).text(), None);
    assert_eq!(VariableValue::Nil.text(), Some("nil".to_string()));
}

#[test]
fn number_order_matches_floats() {
    let vals = [0.0, -0.0, 1.5, -1.5, 3.0, -7.25, f64::INFINITY, f64::NEG_INFINITY, f64::NAN];
    for a in vals {
        for b in vals {
            let x = Number { bits: a.to_bits() };
            let y = Number { bits: b.to_bits() };
            assert_eq!(x.less_than(&y), a < b, "{a} < {b}");
            assert_eq!(x.less_equal(&y), a <= b, "{a} <= {b}");
            assert_eq!(x.equals(&y), a == b, "{a} == {b}");
            assert_eq!(f64::from_bits(x.negate().bits).to_bits(), (-a).to_bits());
        }
    }
}

#[test]
fn chained_environment() {
    let mut env = state::Environment::new();
    env.define("a".to_string(), state::VariableValue::Boolean { value: true });
    let mut inner = env.scope();
    assert!(matches!(inner.get("a"), Ok(state::VariableValue::Boolean { value: true })));
    inner.define("a".to_string(), state::VariableValue::Nil);
    assert!(matches!(inner.get("a"), Ok(state::VariableValue::Nil)));
    let e = inner.assign("b".to_string(), state::VariableValue::Nil).unwrap_err();
    assert_eq!(e.render(), "Undefined variable 'b'.\n[line 1]");
    let outer = inner.unscope().unwrap();
    assert!(matches!(outer.get("a"), Ok(state::VariableValue::Boolean { value: true })));
    assert!(outer.unscope().is_none());
}

#[test]
fn chained_assign_reaches_outer_scope() {
    let mut env = state::Environment::new();
    env.define("a".to_string(), state::VariableValue::Nil);
    let mut inner = env.scope();
    inner.assign("a".to_string(), state::VariableValue::Str { value: "x".to_string() }).unwrap();
    let outer = inner.unscope().unwrap();
    assert!(matches!(outer.get("a"), Ok(state::VariableValue::Str { value }) if value == "x"));
    assert!(!state::VariableValue::Nil.is_truthy());
    assert_eq!(state::VariableValue::Boolean { value: false }.text(), Some("false".to_string()));
}

#[test]
fn defining_one_name_leaves_others() {
    let mut env = Environment::new();
    env.define(0, "a".to_string(), num(1.0));
    let inner = env.scope(0);
    env.define(0, "b".to_string(), num(2.0));
    assert_eq!(as_num(env.get(inner, "a", 1).unwrap()), 1.0);
    assert_eq!(as_num(env.get(inner, "b", 1).unwrap()), 2.0);
    assert!(matches!(env.get(inner, "clock", 1), Ok(VariableValue::Function { .. })));
}

#[test]
fn state_unscope_undoes_scope() {
    let mut env = state::Environment::new();
    env.define("a".to_string(), state::VariableValue::Boolean { value: true });
    let copy = env.clone();
    let back = copy.scope().unscope().unwrap();
    assert!(matches!(back.get("a"), Ok(state::VariableValue::Boolean { value: true })));
    assert!(back.unscope().is_none());
    assert!(matches!(env.get("a"), Ok(state::VariableValue::Boolean { value: true })));
}

#[test]
fn state_values_compare_like_the_values_they_hold() {
    let num = |v: f64| state::VariableValue::Num { value: lib::runtime::Number { bits: v.to_bits() } };
    assert!(num(0.0) == num(-0.0));
    assert!(num(f64::NAN) != num(f64::NAN));
    assert!(num(1.5) == num(1.5));
    assert!(num(1.0) != num(2.0));
    let s = |v: &str| state::VariableValue::Str { value: v.to_string() };
    assert!(s("a") == s("a"));
    assert!(s("a") != s("b"));
    assert!(state::VariableValue::Nil == state::VariableValue::Nil);
    assert!(state::VariableValue::Nil != state::VariableValue::Boolean { value: false });
    assert!(state::VariableValue::Boolean { value: true } == state::VariableValue::Boolean { value: true });
    let v = s("x");
    assert!(v.clone() == v);
}
