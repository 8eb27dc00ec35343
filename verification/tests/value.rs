use rlox::value::{bits_equal, bits_less, bits_negated};
use rlox::{LoxValue, Object};

fn samples() -> Vec<f64> {
    vec![
        0.0,
        -0.0,
        1.0,
        -1.0,
        0.5,
        -0.5,
        2.5,
        1e300,
        -1e300,
        f64::MIN_POSITIVE,
        -f64::MIN_POSITIVE,
        5e-324,
        -5e-324,
        f64::MAX,
        f64::MIN,
        f64::INFINITY,
        f64::NEG_INFINITY,
        f64::NAN,
        -f64::NAN,
        f64::EPSILON,
    ]
}

fn string(text: &str) -> LoxValue {
    LoxValue::Object(Object::String(text.as_bytes().to_vec()))
}

fn number(x: f64) -> LoxValue {
    LoxValue::Number(x.to_bits())
}

#[test]
fn order_of_bit_patterns_is_the_order_of_the_numbers() {
    for a in samples() {
        for b in samples() {
            assert_eq!(bits_less(a.to_bits(), b.to_bits()), a < b, "{a} < {b}");
        }
    }
}

#[test]
fn equality_of_bit_patterns_is_the_equality_of_the_numbers() {
    for a in samples() {
        for b in samples() {
            assert_eq!(bits_equal(a.to_bits(), b.to_bits()), a == b, "{a} == {b}");
        }
    }
}

#[test]
fn negation_of_bit_patterns_is_the_negation_of_the_numbers() {
    for a in samples() {
        assert_eq!(bits_negated(a.to_bits()), (-a).to_bits(), "-{a}");
    }
    assert_eq!(bits_negated(2.5f64.to_bits()), (-2.5f64).to_bits());
}

#[test]
fn falsey_values() {
    assert!(LoxValue::Null.is_falsey());
    assert!(LoxValue::Bool(false).is_falsey());
    assert!(!LoxValue::Bool(true).is_falsey());
    assert!(!number(0.0).is_falsey());
    assert!(!number(f64::NAN).is_falsey());
    assert!(!string("").is_falsey());
}

#[test]
fn less_and_greater() {
    assert!(matches!(number(1.0).less(&number(2.0)), Some(LoxValue::Bool(true))));
    assert!(matches!(number(2.0).less(&number(1.0)), Some(LoxValue::Bool(false))));
    assert!(matches!(number(1.0).greater(&number(2.0)), Some(LoxValue::Bool(false))));
    assert!(matches!(number(2.0).greater(&number(1.0)), Some(LoxValue::Bool(true))));
    assert!(matches!(number(1.0).less(&number(1.0)), Some(LoxValue::Bool(false))));
    assert!(number(1.0).less(&LoxValue::Null).is_none());
    assert!(string("a").less(&number(1.0)).is_none());
    assert!(LoxValue::Bool(true).greater(&LoxValue::Bool(false)).is_none());
    assert!(string("a").greater(&string("b")).is_none());
}

#[test]
fn negation() {
    match number(2.5).neg() {
        Some(LoxValue::Number(bits)) => assert_eq!(f64::from_bits(bits), -2.5),
        _ => panic!("no number"),
    }
    assert!(LoxValue::Bool(true).neg().is_none());
    assert!(LoxValue::Null.neg().is_none());
    assert!(string("1").neg().is_none());
}

#[test]
fn boolean_operations() {
    assert!(matches!(LoxValue::Bool(true).not(), Some(LoxValue::Bool(false))));
    assert!(LoxValue::Null.not().is_none());
    assert!(matches!(LoxValue::Bool(true).bitand(LoxValue::Bool(false)), Some(LoxValue::Bool(false))));
    assert!(matches!(LoxValue::Bool(true).bitand(LoxValue::Bool(true)), Some(LoxValue::Bool(true))));
    assert!(matches!(LoxValue::Bool(false).bitor(LoxValue::Bool(true)), Some(LoxValue::Bool(true))));
    assert!(matches!(LoxValue::Bool(false).bitor(LoxValue::Bool(false)), Some(LoxValue::Bool(false))));
    assert!(LoxValue::Bool(true).bitand(LoxValue::Null).is_none());
    assert!(number(1.0).bitor(LoxValue::Bool(true)).is_none());
}

#[test]
fn values_of_different_variants_are_unequal() {
    let values = [LoxValue::Null, LoxValue::Bool(false), number(0.0), string("")];
    for (i, a) in values.iter().enumerate() {
        for (j, b) in values.iter().enumerate() {
            assert_eq!(a.equals(b), i == j);
        }
    }
}

#[test]
fn equality_within_a_variant() {
    assert!(LoxValue::Bool(true).equals(&LoxValue::Bool(true)));
    assert!(!LoxValue::Bool(true).equals(&LoxValue::Bool(false)));
    assert!(number(1.5).equals(&number(1.5)));
    assert!(!number(1.5).equals(&number(2.5)));
    assert!(number(0.0).equals(&number(-0.0)));
    assert!(!number(f64::NAN).equals(&number(f64::NAN)));
    assert!(string("abc").equals(&string("abc")));
    assert!(!string("abc").equals(&string("abd")));
    assert!(!string("abc").equals(&string("ab")));
}

#[test]
fn text_of_values() {
    assert_eq!(LoxValue::Null.text(), Some(b"null".to_vec()));
    assert_eq!(LoxValue::Bool(true).text(), Some(b"true".to_vec()));
    assert_eq!(LoxValue::Bool(false).text(), Some(b"false".to_vec()));
    assert_eq!(string("raw bytes").text(), Some(b"raw bytes".to_vec()));
    assert_eq!(number(1.0).text(), None);
}

#[test]
fn clone_keeps_the_value() {
    let values = [LoxValue::Null, LoxValue::Bool(true), number(3.0), string("copy")];
    for value in values.iter() {
        assert!(value.clone().equals(value));
    }
    assert!(matches!(LoxValue::default(), LoxValue::Null));
}
