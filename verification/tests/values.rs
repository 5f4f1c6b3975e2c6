use lox_interpreter::value::{negate, nan, numbers_equal, numbers_less, variant_eq};
use lox_interpreter::{Interpreter, Literal, LoxCallable, LoxError, Native, Piece, Value};

fn bits(number: f64) -> u64 {
    number.to_bits()
}

const SAMPLES: [f64; 17] = [
    0.0,
    -0.0,
    1.0,
    -1.0,
    0.5,
    -0.5,
    2.5,
    1e300,
    -1e300,
    5e-324,
    -5e-324,
    f64::MAX,
    f64::MIN,
    f64::INFINITY,
    f64::NEG_INFINITY,
    f64::NAN,
    123456789.125,
];

#[test]
fn doubles_compare_as_the_machine_compares_them() {
    for left in SAMPLES {
        for right in SAMPLES {
            assert_eq!(numbers_equal(bits(left), bits(right)), left == right, "{left} == {right}");
            assert_eq!(numbers_less(bits(left), bits(right)), left < right, "{left} < {right}");
        }
    }
}

#[test]
fn negation_flips_the_sign() {
    for sample in SAMPLES {
        assert_eq!(negate(bits(sample)), bits(-sample));
        assert_eq!(negate(negate(bits(sample))), bits(sample));
        assert_eq!(nan(bits(sample)), sample.is_nan());
    }
    assert_eq!(negate(bits(1.5)), bits(-1.5));
    assert_eq!(negate(0), 0x8000_0000_0000_0000);
}

#[test]
fn equality_is_reflexive_but_for_nan() {
    for sample in SAMPLES {
        assert_eq!(numbers_equal(bits(sample), bits(sample)), !sample.is_nan());
    }
    let interpreter = Interpreter::new();
    let values = [
        Value::Nil,
        Value::Boolean(true),
        Value::Boolean(false),
        Value::Number(bits(3.0)),
        Value::String(0),
        Value::Function(0),
        Value::Class(4),
        Value::Instance(2),
    ];
    for left in values {
        for right in values {
            assert_eq!(interpreter.values_equal(left, right), left == right);
        }
    }
    assert!(!interpreter.values_equal(Value::Number(bits(f64::NAN)), Value::Number(bits(f64::NAN))));
    assert!(interpreter.values_equal(Value::Number(bits(0.0)), Value::Number(bits(-0.0))));
}

#[test]
fn only_nil_and_false_are_false() {
    assert!(!Value::Nil.is_truthy());
    assert!(!Value::Boolean(false).is_truthy());
    assert!(Value::Boolean(true).is_truthy());
    assert!(Value::Number(0).is_truthy());
    assert!(Value::String(0).is_truthy());
    assert!(Value::Function(0).is_truthy());
    assert!(Value::Class(0).is_truthy());
    assert!(Value::Instance(0).is_truthy());
    assert!(!Literal::Nil.is_truthy());
    assert!(!Literal::Boolean(false).is_truthy());
    assert!(Literal::Boolean(true).is_truthy());
    assert!(Literal::String(String::new()).is_truthy());
    assert!(Literal::Number("0".to_string()).is_truthy());
}

#[test]
fn variants_are_told_apart() {
    assert!(variant_eq(&Value::Number(1), &Value::Number(2)));
    assert!(variant_eq(&Value::Nil, &Value::Nil));
    assert!(variant_eq(&Value::Boolean(true), &Value::Boolean(false)));
    assert!(!variant_eq(&Value::String(1), &Value::Function(1)));
    assert!(!variant_eq(&Value::Class(1), &Value::Instance(1)));
    assert!(!variant_eq(&Value::Nil, &Value::Boolean(false)));
}

#[test]
fn errors_have_their_reports() {
    assert_eq!(
        LoxError::parser_error(12, "x", "Expect expression.").to_string(),
        "[line 12] Error at 'x': Expect expression."
    );
    assert_eq!(
        LoxError::resolver_error(1000, "this", "Can't use 'this' outside of a class.").to_string(),
        "[line 1000] Resolver Error at 'this': Can't use 'this' outside of a class."
    );
    assert_eq!(LoxError::TypeError("Operands must be numbers.".to_string()).to_string(), "Operands must be numbers.");
    assert_eq!(
        LoxError::UndefinedVariable { name: "a".to_string(), line: 0 }.to_string(),
        "Undefined variable 'a'.\n[line 0]"
    );
    assert_eq!(LoxError::UndefinedProperty("p".to_string()).to_string(), "Undefined property 'p'.");
    assert_eq!(
        LoxError::ArgumentCountError { expected: 10, got: 255 }.to_string(),
        "Expected 10 arguments but got 255."
    );
    assert_eq!(
        LoxError::UndefinedVariable { name: String::new(), line: usize::MAX }.to_string(),
        format!("Undefined variable ''.\n[line {}]", usize::MAX)
    );
}

#[test]
fn a_fresh_interpreter_knows_the_clock_alone() {
    let interpreter = Interpreter::new();
    assert_eq!(interpreter.global("clock"), Some(Value::Function(0)));
    assert_eq!(interpreter.global("other"), None);
    assert_eq!(interpreter.stringify(Value::Function(0)), Piece::Text("<native fn>".to_string()));
    assert_eq!(interpreter.stringify(Value::Nil), Piece::Text("nil".to_string()));
    assert_eq!(interpreter.stringify(Value::Number(7)), Piece::Number(7));
    assert_eq!(interpreter.depth_of(0), None);
    let clock = Native::clock();
    assert_eq!(clock.arity(), 0);
    assert_eq!(clock.to_string(), "<native fn>");
}
