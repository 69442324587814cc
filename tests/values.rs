use lox_vm::values::Value;

fn num(x: f64) -> Value {
    Value::create_number(x.to_bits())
}

#[test]
fn falsey_values() {
    assert!(Value::create_nil().is_falsey());
    assert!(Value::create_boolean(false).is_falsey());
    assert!(!Value::create_boolean(true).is_falsey());
    assert!(!num(0.0).is_falsey());
    assert!(!num(f64::NAN).is_falsey());
}

#[test]
fn predicates_and_extractors() {
    assert!(num(1.0).is_number() && !num(1.0).is_boolean() && !num(1.0).is_nil());
    assert!(Value::create_nil().is_nil());
    assert_eq!(num(1.5).try_as_number(), Ok(1.5f64.to_bits()));
    assert!(Value::create_nil().try_as_number().is_err());
    assert_eq!(Value::create_boolean(true).try_as_boolean(), Ok(true));
    assert!(num(1.0).try_as_boolean().is_err());
}

#[test]
fn equality_follows_ieee() {
    assert!(num(1.0).is_equal_to(&num(1.0)));
    assert!(num(0.0).is_equal_to(&num(-0.0)));
    assert!(!num(f64::NAN).is_equal_to(&num(f64::NAN)));
    assert!(!Value::create_nil().is_equal_to(&Value::create_boolean(false)));
    assert!(!num(1.0).is_equal_to(&Value::create_boolean(true)));
    assert!(Value::create_nil().is_equal_to(&Value::create_nil()));
}

#[test]
fn ordering_follows_ieee() {
    let xs = [f64::NEG_INFINITY, -2.5, -1.0, -0.0, 0.0, 1e-300, 1.0, 3.5, f64::INFINITY, f64::NAN];
    for a in xs {
        for b in xs {
            assert_eq!(num(a).is_less_than(&num(b)), a < b, "{} < {}", a, b);
            assert_eq!(num(a).is_greater_than(&num(b)), a > b, "{} > {}", a, b);
            assert_eq!(num(a).is_equal_to(&num(b)), a == b, "{} == {}", a, b);
        }
    }
}

#[test]
fn negation_flips_the_sign() {
    for x in [0.0f64, 1.5, -3.0, f64::INFINITY] {
        assert_eq!(num(x).negate(), num(-x));
    }
    assert_eq!(Value::create_nil().negate(), Value::Nil);
}
