use tac::value::{BinaryOp, FloatOp, Outcome, Value};

fn floats() -> Vec<f64> {
    vec![
        0.0,
        -0.0,
        1.0,
        -1.0,
        0.5,
        -0.5,
        3.14,
        -3.14,
        1e300,
        -1e300,
        f64::MIN_POSITIVE,
        -f64::MIN_POSITIVE,
        5e-324,
        -5e-324,
        f64::MAX,
        f64::MIN,
        f64::INFINITY,
        f64::NEG_INFINITY,
        f64::NAN,
        -f64::NAN,
        f64::from_bits(0x7FF0_0000_0000_0001),
        f64::from_bits(0xFFFF_FFFF_FFFF_FFFF),
    ]
}

fn float(x: f64) -> Value {
    Value::F64(x.to_bits())
}

fn done(result: Result<Outcome, String>) -> Value {
    match result {
        Ok(Outcome::Done(value)) => value,
        other => panic!("no value: {:?}", other),
    }
}

fn failure<T: std::fmt::Debug>(result: Result<T, String>) -> String {
    match result {
        Err(message) => message,
        Ok(value) => panic!("no error: {:?}", value),
    }
}

fn is_u64(value: Value, want: u64) -> bool {
    matches!(value, Value::U64(v) if v == want)
}

fn is_i64(value: Value, want: i64) -> bool {
    matches!(value, Value::I64(v) if v == want)
}

fn is_bool(value: Value, want: bool) -> bool {
    matches!(value, Value::Bool(v) if v == want)
}

#[test]
fn float_less_than_is_that_of_the_floats() {
    for a in floats() {
        for b in floats() {
            let less = Value::lt(float(a), float(b)).unwrap();
            assert!(is_bool(less, a < b), "{:?} < {:?}", a, b);
        }
    }
}

#[test]
fn float_greater_than_is_that_of_the_floats() {
    for a in floats() {
        for b in floats() {
            let greater = Value::gt(float(a), float(b)).unwrap();
            assert!(is_bool(greater, a > b), "{:?} > {:?}", a, b);
        }
    }
}

#[test]
fn float_equality_is_that_of_the_floats() {
    for a in floats() {
        for b in floats() {
            let equal = Value::eq(float(a), float(b)).unwrap();
            assert!(is_bool(equal, a == b), "{:?} == {:?}", a, b);
        }
    }
}

#[test]
fn float_negation_is_that_of_the_floats() {
    for a in floats() {
        let mut value = float(a);
        assert_eq!(value.arithmetic_negate(), Ok(()));
        assert!(matches!(value, Value::F64(bits) if bits == (-a).to_bits()), "-{:?}", a);
    }
}

#[test]
fn float_zero_test_is_that_of_the_floats() {
    for a in floats() {
        assert_eq!(float(a).is_numeric_zero(), a == 0.0, "{:?}", a);
    }
}

#[test]
fn numeric_zero_is_a_zero_of_a_number() {
    assert!(Value::F64(0.0f64.to_bits()).is_numeric_zero());
    assert!(Value::F64((-0.0f64).to_bits()).is_numeric_zero());
    assert!(Value::I64(0).is_numeric_zero());
    assert!(Value::U64(0).is_numeric_zero());
    assert!(!Value::I64(1).is_numeric_zero());
    assert!(!Value::U64(1).is_numeric_zero());
    assert!(!Value::I64(-1).is_numeric_zero());
    assert!(!Value::Bool(false).is_numeric_zero());
    assert!(!Value::Char('\0').is_numeric_zero());
    assert!(!Value::Addr(0).is_numeric_zero());
}

#[test]
fn type_info_names_the_type() {
    assert_eq!(Value::F64(0).type_info(), "f64");
    assert_eq!(Value::U64(0).type_info(), "u64");
    assert_eq!(Value::I64(0).type_info(), "i64");
    assert_eq!(Value::Bool(true).type_info(), "bool");
    assert_eq!(Value::Char('c').type_info(), "char");
    assert_eq!(Value::Addr(3).type_info(), "addr");
}

#[test]
fn to_text_writes_every_value_but_floats() {
    assert_eq!(Value::U64(0).to_text(), Some("0".to_string()));
    assert_eq!(Value::U64(18446744073709551615).to_text(), Some("18446744073709551615".to_string()));
    assert_eq!(Value::I64(-9223372036854775808).to_text(), Some("-9223372036854775808".to_string()));
    assert_eq!(Value::I64(9223372036854775807).to_text(), Some("9223372036854775807".to_string()));
    assert_eq!(Value::I64(-1).to_text(), Some("-1".to_string()));
    assert_eq!(Value::I64(1050).to_text(), Some("1050".to_string()));
    assert_eq!(Value::Bool(true).to_text(), Some("true".to_string()));
    assert_eq!(Value::Bool(false).to_text(), Some("false".to_string()));
    assert_eq!(Value::Char('a').to_text(), Some("a".to_string()));
    assert_eq!(Value::Char('✓').to_text(), Some("✓".to_string()));
    assert_eq!(Value::Addr(12).to_text(), Some("addr(12)".to_string()));
    assert_eq!(Value::F64(0).to_text(), None);
}

#[test]
fn negation_changes_sign_and_wraps() {
    let mut value = Value::I64(5);
    assert_eq!(value.arithmetic_negate(), Ok(()));
    assert!(is_i64(value, -5));
    let mut least = Value::I64(i64::MIN);
    assert_eq!(least.arithmetic_negate(), Ok(()));
    assert!(is_i64(least, i64::MIN));
}

#[test]
fn negation_refuses_what_has_no_sign() {
    let mut unsigned = Value::U64(5);
    assert_eq!(
        unsigned.arithmetic_negate(),
        Err("It is not possible to negate a number of type u64".to_string())
    );
    assert!(is_u64(unsigned, 5));
    assert_eq!(
        Value::Bool(true).arithmetic_negate(),
        Err("It is not possible to arithmetically negate a boolean".to_string())
    );
    assert_eq!(
        Value::Char('a').arithmetic_negate(),
        Err("It is not possible to negate a character".to_string())
    );
    assert_eq!(
        Value::Addr(1).arithmetic_negate(),
        Err("It is not possible to negate an address".to_string())
    );
}

#[test]
fn logic_negation_inverts_booleans_only() {
    let mut yes = Value::Bool(true);
    assert_eq!(yes.logic_negate(), Ok(()));
    assert!(is_bool(yes, false));
    assert_eq!(yes.logic_negate(), Ok(()));
    assert!(is_bool(yes, true));
    let mut number = Value::I64(1);
    assert_eq!(
        number.logic_negate(),
        Err("Operator '!' not supported for value of type i64".to_string())
    );
    assert!(is_i64(number, 1));
    assert_eq!(
        Value::F64(0).logic_negate(),
        Err("Operator '!' not supported for value of type f64".to_string())
    );
}

#[test]
fn comparisons_order_integers_and_characters() {
    assert!(is_bool(Value::lt(Value::U64(1), Value::U64(2)).unwrap(), true));
    assert!(is_bool(Value::lt(Value::U64(2), Value::U64(2)).unwrap(), false));
    assert!(is_bool(Value::gt(Value::U64(3), Value::U64(2)).unwrap(), true));
    assert!(is_bool(Value::lt(Value::I64(-3), Value::I64(2)).unwrap(), true));
    assert!(is_bool(Value::gt(Value::I64(-3), Value::I64(2)).unwrap(), false));
    assert!(is_bool(Value::lt(Value::Char('a'), Value::Char('b')).unwrap(), true));
    assert!(is_bool(Value::gt(Value::Char('a'), Value::Char('b')).unwrap(), false));
    assert!(is_bool(Value::eq(Value::Char('a'), Value::Char('a')).unwrap(), true));
    assert!(is_bool(Value::eq(Value::Bool(true), Value::Bool(false)).unwrap(), false));
    assert!(is_bool(Value::eq(Value::I64(4), Value::I64(4)).unwrap(), true));
    assert!(is_bool(Value::eq(Value::U64(4), Value::U64(5)).unwrap(), false));
}

#[test]
fn comparisons_refuse_mixed_and_unordered_types() {
    assert_eq!(
        failure(Value::lt(Value::Bool(true), Value::Bool(false))),
        "Operator '<' not supported between values of type 'bool' and 'bool'"
    );
    assert_eq!(
        failure(Value::gt(Value::I64(1), Value::U64(1))),
        "Operator '>' not supported between values of type 'i64' and 'u64'"
    );
    assert_eq!(
        failure(Value::eq(Value::Char('a'), Value::F64(0))),
        "Operator '==' not supported between values of type 'char' and 'f64'"
    );
    assert_eq!(
        failure(Value::eq(Value::Addr(1), Value::Addr(1))),
        "Operator '==' not supported between values of type 'addr' and 'addr'"
    );
}

#[test]
fn integer_arithmetic_wraps() {
    assert!(is_u64(done(Value::U64(2).add(Value::U64(3))), 5));
    assert!(is_u64(done(Value::U64(u64::MAX).add(Value::U64(2))), 1));
    assert!(is_u64(done(Value::U64(0).sub(Value::U64(1))), u64::MAX));
    assert!(is_u64(done(Value::U64(1 << 63).mul(Value::U64(2))), 0));
    assert!(is_i64(done(Value::I64(i64::MAX).add(Value::I64(1))), i64::MIN));
    assert!(is_i64(done(Value::I64(i64::MIN).sub(Value::I64(1))), i64::MAX));
    assert!(is_i64(done(Value::I64(i64::MAX).mul(Value::I64(2))), -2));
    assert!(is_i64(done(Value::I64(-7).mul(Value::I64(6))), -42));
}

#[test]
fn arithmetic_refuses_mixed_types() {
    assert_eq!(
        failure(Value::I64(1).add(Value::Bool(true))),
        "Operator '+' not supported between values of type 'i64' and 'bool'"
    );
    assert_eq!(
        failure(Value::U64(1).sub(Value::I64(1))),
        "Operator '-' not supported between values of type 'u64' and 'i64'"
    );
    assert_eq!(
        failure(Value::F64(0).mul(Value::I64(1))),
        "Operator '*' not supported between values of type 'f64' and 'i64'"
    );
    assert_eq!(
        failure(Value::Char('a').div(Value::Char('b'))),
        "Operator '/' not supported between values of type 'char' and 'char'"
    );
    assert_eq!(
        failure(Value::Bool(true).rem(Value::I64(0))),
        "Operator '%' not supported between values of type 'bool' and 'i64'"
    );
}

#[test]
fn float_arithmetic_is_left_to_the_host() {
    let a = 1.5f64.to_bits();
    let b = 2.25f64.to_bits();
    assert!(matches!(
        Value::F64(a).add(Value::F64(b)),
        Ok(Outcome::Float { op: FloatOp::Add, lhs, rhs }) if lhs == a && rhs == b
    ));
    assert!(matches!(
        Value::F64(a).sub(Value::F64(b)),
        Ok(Outcome::Float { op: FloatOp::Subtract, lhs, rhs }) if lhs == a && rhs == b
    ));
    assert!(matches!(
        Value::F64(a).mul(Value::F64(b)),
        Ok(Outcome::Float { op: FloatOp::Multiply, lhs, rhs }) if lhs == a && rhs == b
    ));
    assert!(matches!(
        Value::F64(a).div(Value::F64(b)),
        Ok(Outcome::Float { op: FloatOp::Divide, lhs, rhs }) if lhs == a && rhs == b
    ));
    assert!(matches!(
        Value::F64(a).rem(Value::F64(b)),
        Ok(Outcome::Float { op: FloatOp::Modulo, lhs, rhs }) if lhs == a && rhs == b
    ));
}

#[test]
fn division_rounds_toward_zero() {
    assert!(is_u64(done(Value::U64(7).div(Value::U64(2))), 3));
    assert!(is_u64(done(Value::U64(7).rem(Value::U64(2))), 1));
    assert!(is_i64(done(Value::I64(7).div(Value::I64(2))), 3));
    assert!(is_i64(done(Value::I64(-7).div(Value::I64(2))), -3));
    assert!(is_i64(done(Value::I64(7).div(Value::I64(-2))), -3));
    assert!(is_i64(done(Value::I64(-7).div(Value::I64(-2))), 3));
    assert!(is_i64(done(Value::I64(7).rem(Value::I64(2))), 1));
    assert!(is_i64(done(Value::I64(-7).rem(Value::I64(2))), -1));
    assert!(is_i64(done(Value::I64(7).rem(Value::I64(-2))), 1));
    assert!(is_i64(done(Value::I64(-7).rem(Value::I64(-2))), -1));
    assert!(is_i64(done(Value::I64(0).div(Value::I64(-5))), 0));
}

#[test]
fn division_wraps_at_the_least_integer() {
    assert!(is_i64(done(Value::I64(i64::MIN).div(Value::I64(-1))), i64::MIN));
    assert!(is_i64(done(Value::I64(i64::MIN).rem(Value::I64(-1))), 0));
    assert!(is_i64(done(Value::I64(i64::MIN).div(Value::I64(1))), i64::MIN));
}

#[test]
fn division_by_a_numeric_zero_fails() {
    let zeros = [
        Value::F64(0.0f64.to_bits()),
        Value::F64((-0.0f64).to_bits()),
        Value::I64(0),
        Value::U64(0),
    ];
    let numbers = [Value::F64(1.0f64.to_bits()), Value::I64(1), Value::U64(1), Value::U64(0)];
    for zero in zeros {
        for number in numbers {
            assert_eq!(failure(number.div(zero)), "Division by 0");
            assert_eq!(failure(number.rem(zero)), "Division by 0");
            assert_eq!(failure(Value::apply(BinaryOp::Divide, number, zero)), "Division by 0");
            assert_eq!(failure(Value::apply(BinaryOp::Modulo, number, zero)), "Division by 0");
        }
    }
}

#[test]
fn shifts_move_bits() {
    assert!(matches!(Value::U64(1).shl(Value::U64(4)), Ok(Value::U64(16))));
    assert!(matches!(Value::U64(16).shr(Value::U64(4)), Ok(Value::U64(1))));
    assert!(matches!(Value::U64(1).shl(Value::I64(3)), Ok(Value::U64(8))));
    assert!(matches!(Value::I64(-16).shr(Value::I64(2)), Ok(Value::I64(-4))));
    assert!(matches!(Value::I64(-1).shr(Value::I64(63)), Ok(Value::I64(-1))));
    assert!(matches!(Value::I64(1).shl(Value::I64(63)), Ok(Value::I64(i64::MIN))));
    assert!(matches!(Value::U64(u64::MAX).shr(Value::U64(63)), Ok(Value::U64(1))));
}

#[test]
fn negative_count_shifts_the_other_way() {
    assert!(matches!(Value::U64(16).shl(Value::I64(-4)), Ok(Value::U64(1))));
    assert!(matches!(Value::U64(1).shr(Value::I64(-4)), Ok(Value::U64(16))));
    assert!(matches!(Value::I64(-16).shl(Value::I64(-2)), Ok(Value::I64(-4))));
    assert!(matches!(Value::I64(3).shr(Value::I64(-1)), Ok(Value::I64(6))));
}

#[test]
fn shift_count_wraps_at_the_width_and_saturates() {
    assert!(matches!(Value::U64(1).shl(Value::U64(64)), Ok(Value::U64(1))));
    assert!(matches!(Value::U64(1).shl(Value::U64(65)), Ok(Value::U64(2))));
    assert!(matches!(Value::U64(8).shr(Value::U64(67)), Ok(Value::U64(1))));
    assert!(matches!(Value::U64(1).shl(Value::U64(u32::MAX as u64)), Ok(Value::U64(v)) if v == 1 << 63));
    assert!(matches!(Value::U64(1).shl(Value::U64(1 << 32)), Ok(Value::U64(v)) if v == 1 << 63));
    assert!(matches!(Value::U64(1).shl(Value::U64(u64::MAX)), Ok(Value::U64(v)) if v == 1 << 63));
    assert!(matches!(Value::I64(-1).shr(Value::I64(i64::MAX)), Ok(Value::I64(-1))));
    assert!(matches!(Value::U64(1 << 63).shl(Value::I64(i64::MIN)), Ok(Value::U64(1))));
    assert!(matches!(Value::I64(i64::MIN).shl(Value::I64(i64::MIN)), Ok(Value::I64(-1))));
}

#[test]
fn shifts_refuse_other_types() {
    assert_eq!(
        failure(Value::I64(1).shl(Value::U64(1))),
        "Operator '<<' not supported between values of type 'i64' and 'u64'"
    );
    assert_eq!(
        failure(Value::F64(0).shl(Value::F64(0))),
        "Operator '<<' not supported between values of type 'f64' and 'f64'"
    );
    assert_eq!(
        failure(Value::Bool(true).shr(Value::I64(1))),
        "Operator '<<' not supported between values of type 'bool' and 'i64'"
    );
}

#[test]
fn apply_does_what_each_operator_does() {
    assert!(is_i64(done(Value::apply(BinaryOp::Add, Value::I64(1), Value::I64(2))), 3));
    assert!(is_i64(done(Value::apply(BinaryOp::Subtract, Value::I64(1), Value::I64(2))), -1));
    assert!(is_i64(done(Value::apply(BinaryOp::Multiply, Value::I64(3), Value::I64(2))), 6));
    assert!(is_i64(done(Value::apply(BinaryOp::Divide, Value::I64(7), Value::I64(2))), 3));
    assert!(is_i64(done(Value::apply(BinaryOp::Modulo, Value::I64(7), Value::I64(2))), 1));
    assert!(is_i64(done(Value::apply(BinaryOp::ShiftLeft, Value::I64(1), Value::I64(2))), 4));
    assert!(is_i64(done(Value::apply(BinaryOp::ShiftRight, Value::I64(4), Value::I64(2))), 1));
    assert!(is_bool(done(Value::apply(BinaryOp::Equal, Value::I64(4), Value::I64(4))), true));
    assert!(is_bool(done(Value::apply(BinaryOp::Greater, Value::I64(4), Value::I64(5))), false));
    assert!(is_bool(done(Value::apply(BinaryOp::Less, Value::I64(4), Value::I64(5))), true));
    assert_eq!(BinaryOp::ShiftRight.symbol(), "<<");
    assert_eq!(BinaryOp::Equal.symbol(), "==");
}

#[test]
fn float_order_agrees_with_the_floats_on_many_bit_patterns() {
    let mut state: u64 = 0x9E37_79B9_7F4A_7C15;
    let mut next = move || {
        state ^= state << 13;
        state ^= state >> 7;
        state ^= state << 17;
        state
    };
    for round in 0..200_000 {
        let mut a = next();
        let mut b = next();
        if round % 4 == 1 {
            // Close neighbours, and often equal.
            b = a.wrapping_add(round % 3);
        } else if round % 4 == 2 {
            // The same magnitude under both signs.
            b = a ^ (1 << 63);
        } else if round % 16 == 3 {
            a &= 0x8000_0000_0000_000F;
            b &= 0x8000_0000_0000_000F;
        }
        let x = f64::from_bits(a);
        let y = f64::from_bits(b);
        assert!(is_bool(Value::lt(Value::F64(a), Value::F64(b)).unwrap(), x < y), "{:x} < {:x}", a, b);
        assert!(is_bool(Value::gt(Value::F64(a), Value::F64(b)).unwrap(), x > y), "{:x} > {:x}", a, b);
        assert!(is_bool(Value::eq(Value::F64(a), Value::F64(b)).unwrap(), x == y), "{:x} == {:x}", a, b);
        assert_eq!(Value::F64(a).is_numeric_zero(), x == 0.0, "{:x}", a);
        let mut negated = Value::F64(a);
        assert_eq!(negated.arithmetic_negate(), Ok(()));
        assert!(matches!(negated, Value::F64(bits) if bits == (-x).to_bits()), "-{:x}", a);
    }
}
