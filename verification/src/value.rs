//! Run-time values and the typed operators on them.
//!
//! A float is held as its IEEE 754 binary64 bit pattern. Order, equality,
//! sign change and the test for zero are decided on the bits. Float
//! arithmetic is not done here: an operator applied to two floats yields
//! [`Outcome::Float`], the operation that the host has to carry out.

use vstd::prelude::*;
use vstd::string::*;
use crate::text::{push_char, push_decimal, push_signed_decimal, decimal, signed_decimal};

verus! {

/// A run-time value.
#[derive(Clone, Copy, Debug)]
pub enum Value {
    /// A 64-bit float, as its bit pattern.
    F64(u64),
    U64(u64),
    I64(i64),
    Bool(bool),
    Char(char),
    /// The index of a slot of the operand stack.
    Addr(usize),
}

/// The binary operators of the machine.
#[derive(Clone, Copy, Debug, PartialEq, Eq, Structural)]
pub enum BinaryOp {
    Add,
    Subtract,
    Multiply,
    Divide,
    Modulo,
    ShiftLeft,
    ShiftRight,
    Equal,
    Greater,
    Less,
}

/// The float operations that are left to the host.
#[derive(Clone, Copy, Debug, PartialEq, Eq, Structural)]
pub enum FloatOp {
    Add,
    Subtract,
    Multiply,
    Divide,
    Modulo,
}

/// What an arithmetic operator yields.
#[derive(Clone, Copy, Debug)]
pub enum Outcome {
    /// The result.
    Done(Value),
    /// Both operands are floats: the result is `lhs op rhs`, computed by
    /// the host on the two bit patterns.
    Float { op: FloatOp, lhs: u64, rhs: u64 },
}

/// The sign bit of a float.
pub const SIGN_BIT: u64 = 0x8000_0000_0000_0000;

/// The bit pattern of positive infinity; every greater magnitude is a NaN.
pub const INFINITY_BITS: u64 = 0x7FF0_0000_0000_0000;

/// The bits of a float without its sign.
pub open spec fn float_magnitude(bits: u64) -> u64 {
    if bits >= SIGN_BIT {
        (bits - SIGN_BIT) as u64
    } else {
        bits
    }
}

pub open spec fn float_is_nan(bits: u64) -> bool {
    float_magnitude(bits) > INFINITY_BITS
}

/// The place of a float that is no NaN in the order of the floats: the
/// magnitude, negated under a sign. Both zeros have rank 0.
pub open spec fn float_rank(bits: u64) -> int {
    if bits >= SIGN_BIT {
        -(float_magnitude(bits) as int)
    } else {
        bits as int
    }
}

/// Float `<`: false when either side is a NaN.
pub open spec fn float_lt(a: u64, b: u64) -> bool {
    !float_is_nan(a) && !float_is_nan(b) && float_rank(a) < float_rank(b)
}

/// Float `==`: false when either side is a NaN, true of the two zeros.
pub open spec fn float_eq(a: u64, b: u64) -> bool {
    !float_is_nan(a) && !float_is_nan(b) && float_rank(a) == float_rank(b)
}

/// The float with the opposite sign.
pub open spec fn float_negated(bits: u64) -> u64 {
    if bits >= SIGN_BIT {
        (bits - SIGN_BIT) as u64
    } else {
        (bits + SIGN_BIT) as u64
    }
}

/// The quotient of `a` by `b`, rounded toward zero.
pub open spec fn truncated_quotient(a: int, b: int) -> int
    recommends
        b != 0,
{
    if (a >= 0) == (b > 0) {
        abs(a) / abs(b)
    } else {
        -(abs(a) / abs(b))
    }
}

/// The remainder that goes with [`truncated_quotient`]; it has the sign
/// of `a`.
pub open spec fn truncated_remainder(a: int, b: int) -> int
    recommends
        b != 0,
{
    if a >= 0 {
        a % abs(b)
    } else {
        -((-a) % abs(b))
    }
}

pub open spec fn abs(a: int) -> int {
    if a < 0 {
        -a
    } else {
        a
    }
}

/// Signed division as the machine does it: toward zero, and wrapping
/// where the quotient leaves the type (`i64::MIN / -1` is `i64::MIN`).
pub open spec fn wrapping_quotient(a: i64, b: i64) -> i64
    recommends
        b != 0,
{
    if a == i64::MIN && b == -1 {
        i64::MIN
    } else {
        truncated_quotient(a as int, b as int) as i64
    }
}

/// The shift count that a count of `n` places stands for: counts above
/// `u32::MAX` are taken as `u32::MAX`.
pub open spec fn shift_count(n: nat) -> u32 {
    if n > u32::MAX {
        u32::MAX
    } else {
        n as u32
    }
}

pub open spec fn shift_u64(left: bool, a: u64, n: nat) -> u64 {
    if left {
        a.wrapping_shl(shift_count(n))
    } else {
        a.wrapping_shr(shift_count(n))
    }
}

pub open spec fn shift_i64(left: bool, a: i64, n: nat) -> i64 {
    if left {
        a.wrapping_shl(shift_count(n))
    } else {
        a.wrapping_shr(shift_count(n))
    }
}

impl BinaryOp {
    /// The operator as error messages of the operators write it. Both
    /// shifts are written `<<` there.
    pub open spec fn symbol_spec(self) -> Seq<char> {
        match self {
            BinaryOp::Add => "+"@,
            BinaryOp::Subtract => "-"@,
            BinaryOp::Multiply => "*"@,
            BinaryOp::Divide => "/"@,
            BinaryOp::Modulo => "%"@,
            BinaryOp::ShiftLeft => "<<"@,
            BinaryOp::ShiftRight => "<<"@,
            BinaryOp::Equal => "=="@,
            BinaryOp::Greater => ">"@,
            BinaryOp::Less => "<"@,
        }
    }

    pub fn symbol(self) -> (text: &'static str)
        ensures
            text@ == self.symbol_spec(),
    {
        match self {
            BinaryOp::Add => "+",
            BinaryOp::Subtract => "-",
            BinaryOp::Multiply => "*",
            BinaryOp::Divide => "/",
            BinaryOp::Modulo => "%",
            BinaryOp::ShiftLeft => "<<",
            BinaryOp::ShiftRight => "<<",
            BinaryOp::Equal => "==",
            BinaryOp::Greater => ">",
            BinaryOp::Less => "<",
        }
    }
}

/// The message for an operator that its operands' types do not allow.
pub open spec fn unsupported_text(symbol: Seq<char>, a: Value, b: Value) -> Seq<char> {
    "Operator '"@ + symbol + "' not supported between values of type '"@ + a.type_info_spec()
        + "' and '"@ + b.type_info_spec() + "'"@
}

fn unsupported(symbol: &str, a: Value, b: Value) -> (message: String)
    ensures
        message@ == unsupported_text(symbol@, a, b),
{
    let mut message = String::from_str("Operator '");
    message.append(symbol);
    message.append("' not supported between values of type '");
    message.append(a.type_info());
    message.append("' and '");
    message.append(b.type_info());
    message.append("'");
    message
}

/// Whether the result `got` is `want`, message for message.
pub open spec fn same_outcome(got: Result<Outcome, String>, want: Result<Outcome, Seq<char>>) -> bool {
    match got {
        Ok(outcome) => want == Ok::<Outcome, Seq<char>>(outcome),
        Err(message) => want == Err::<Outcome, Seq<char>>(message@),
    }
}

/// Whether the result `got` is `want`, message for message.
pub open spec fn same_value(got: Result<Value, String>, want: Result<Value, Seq<char>>) -> bool {
    match got {
        Ok(value) => want == Ok::<Value, Seq<char>>(value),
        Err(message) => want == Err::<Value, Seq<char>>(message@),
    }
}

/// Whether `got` succeeds or fails as `want` does, with the same
/// message.
pub open spec fn same_unit(got: Result<(), String>, want: Result<Value, Seq<char>>) -> bool {
    match got {
        Ok(_) => want is Ok,
        Err(message) => want == Err::<Value, Seq<char>>(message@),
    }
}

impl Value {
    /// The name of the value's type.
    pub open spec fn type_info_spec(self) -> Seq<char> {
        match self {
            Value::F64(_) => "f64"@,
            Value::U64(_) => "u64"@,
            Value::I64(_) => "i64"@,
            Value::Bool(_) => "bool"@,
            Value::Char(_) => "char"@,
            Value::Addr(_) => "addr"@,
        }
    }

    /// Whether the value is a number equal to zero: either float zero,
    /// or an integer 0.
    pub open spec fn is_numeric_zero_spec(self) -> bool {
        match self {
            Value::F64(bits) => float_magnitude(bits) == 0,
            Value::U64(v) => v == 0,
            Value::I64(v) => v == 0,
            _ => false,
        }
    }

    pub open spec fn is_number(self) -> bool {
        self is F64 || self is U64 || self is I64
    }

    /// The value after unary `-`, or the message that refuses it.
    pub open spec fn negated(self) -> Result<Value, Seq<char>> {
        match self {
            Value::F64(bits) => Ok(Value::F64(float_negated(bits))),
            Value::U64(_) => Err("It is not possible to negate a number of type u64"@),
            Value::I64(v) => Ok(Value::I64(0i64.wrapping_sub(v))),
            Value::Bool(_) => Err("It is not possible to arithmetically negate a boolean"@),
            Value::Char(_) => Err("It is not possible to negate a character"@),
            Value::Addr(_) => Err("It is not possible to negate an address"@),
        }
    }

    /// The value after unary `!`, or the message that refuses it.
    pub open spec fn inverted(self) -> Result<Value, Seq<char>> {
        match self {
            Value::Bool(b) => Ok(Value::Bool(!b)),
            _ => Err("Operator '!' not supported for value of type "@ + self.type_info_spec()),
        }
    }

    /// `a < b` (`less`) or `a > b`.
    pub open spec fn ordered(less: bool, a: Value, b: Value) -> Result<Value, Seq<char>> {
        let symbol = if less {
            "<"@
        } else {
            ">"@
        };
        match (a, b) {
            (Value::F64(x), Value::F64(y)) => Ok(
                Value::Bool(
                    if less {
                        float_lt(x, y)
                    } else {
                        float_lt(y, x)
                    },
                ),
            ),
            (Value::U64(x), Value::U64(y)) => Ok(
                Value::Bool(
                    if less {
                        x < y
                    } else {
                        x > y
                    },
                ),
            ),
            (Value::I64(x), Value::I64(y)) => Ok(
                Value::Bool(
                    if less {
                        x < y
                    } else {
                        x > y
                    },
                ),
            ),
            (Value::Char(x), Value::Char(y)) => Ok(
                Value::Bool(
                    if less {
                        x < y
                    } else {
                        x > y
                    },
                ),
            ),
            _ => Err(unsupported_text(symbol, a, b)),
        }
    }

    /// `a == b`.
    pub open spec fn equated(a: Value, b: Value) -> Result<Value, Seq<char>> {
        match (a, b) {
            (Value::F64(x), Value::F64(y)) => Ok(Value::Bool(float_eq(x, y))),
            (Value::U64(x), Value::U64(y)) => Ok(Value::Bool(x == y)),
            (Value::I64(x), Value::I64(y)) => Ok(Value::Bool(x == y)),
            (Value::Bool(x), Value::Bool(y)) => Ok(Value::Bool(x == y)),
            (Value::Char(x), Value::Char(y)) => Ok(Value::Bool(x == y)),
            _ => Err(unsupported_text("=="@, a, b)),
        }
    }

    /// `a + b`, `a - b` or `a * b`: wrapping on integers, left to the
    /// host on floats.
    pub open spec fn combined(op: FloatOp, a: Value, b: Value) -> Result<Outcome, Seq<char>>
        recommends
            op == FloatOp::Add || op == FloatOp::Subtract || op == FloatOp::Multiply,
    {
        let symbol = match op {
            FloatOp::Add => "+"@,
            FloatOp::Subtract => "-"@,
            _ => "*"@,
        };
        match (a, b) {
            (Value::F64(x), Value::F64(y)) => Ok(Outcome::Float { op, lhs: x, rhs: y }),
            (Value::U64(x), Value::U64(y)) => Ok(
                Outcome::Done(
                    Value::U64(
                        match op {
                            FloatOp::Add => x.wrapping_add(y),
                            FloatOp::Subtract => x.wrapping_sub(y),
                            _ => x.wrapping_mul(y),
                        },
                    ),
                ),
            ),
            (Value::I64(x), Value::I64(y)) => Ok(
                Outcome::Done(
                    Value::I64(
                        match op {
                            FloatOp::Add => x.wrapping_add(y),
                            FloatOp::Subtract => x.wrapping_sub(y),
                            _ => x.wrapping_mul(y),
                        },
                    ),
                ),
            ),
            _ => Err(unsupported_text(symbol, a, b)),
        }
    }

    /// `a / b` (`quotient`) or `a % b`. A numerically zero `b` under a
    /// number is refused, whatever the two types.
    pub open spec fn divided(quotient: bool, a: Value, b: Value) -> Result<Outcome, Seq<char>> {
        let symbol = if quotient {
            "/"@
        } else {
            "%"@
        };
        if a.is_number() && b.is_numeric_zero_spec() {
            Err("Division by 0"@)
        } else {
            match (a, b) {
                (Value::F64(x), Value::F64(y)) => Ok(
                    Outcome::Float {
                        op: if quotient {
                            FloatOp::Divide
                        } else {
                            FloatOp::Modulo
                        },
                        lhs: x,
                        rhs: y,
                    },
                ),
                (Value::U64(x), Value::U64(y)) => Ok(
                    Outcome::Done(
                        Value::U64(
                            if quotient {
                                (x / y) as u64
                            } else {
                                (x % y) as u64
                            },
                        ),
                    ),
                ),
                (Value::I64(x), Value::I64(y)) => Ok(
                    Outcome::Done(
                        Value::I64(
                            if quotient {
                                wrapping_quotient(x, y)
                            } else {
                                truncated_remainder(x as int, y as int) as i64
                            },
                        ),
                    ),
                ),
                _ => Err(unsupported_text(symbol, a, b)),
            }
        }
    }

    /// `a << b` (`left`) or `a >> b`. A negative count shifts the other
    /// way by its magnitude.
    pub open spec fn shifted(left: bool, a: Value, b: Value) -> Result<Value, Seq<char>> {
        match (a, b) {
            (Value::U64(x), Value::U64(n)) => Ok(Value::U64(shift_u64(left, x, n as nat))),
            (Value::U64(x), Value::I64(n)) => Ok(
                Value::U64(
                    if n < 0 {
                        shift_u64(!left, x, (-n) as nat)
                    } else {
                        shift_u64(left, x, n as nat)
                    },
                ),
            ),
            (Value::I64(x), Value::I64(n)) => Ok(
                Value::I64(
                    if n < 0 {
                        shift_i64(!left, x, (-n) as nat)
                    } else {
                        shift_i64(left, x, n as nat)
                    },
                ),
            ),
            _ => Err(unsupported_text("<<"@, a, b)),
        }
    }

    /// The result of the binary operator `op` on `a` and `b`.
    pub open spec fn binary(op: BinaryOp, a: Value, b: Value) -> Result<Outcome, Seq<char>> {
        match op {
            BinaryOp::Add => Value::combined(FloatOp::Add, a, b),
            BinaryOp::Subtract => Value::combined(FloatOp::Subtract, a, b),
            BinaryOp::Multiply => Value::combined(FloatOp::Multiply, a, b),
            BinaryOp::Divide => Value::divided(true, a, b),
            BinaryOp::Modulo => Value::divided(false, a, b),
            BinaryOp::ShiftLeft => done(Value::shifted(true, a, b)),
            BinaryOp::ShiftRight => done(Value::shifted(false, a, b)),
            BinaryOp::Equal => done(Value::equated(a, b)),
            BinaryOp::Greater => done(Value::ordered(false, a, b)),
            BinaryOp::Less => done(Value::ordered(true, a, b)),
        }
    }

    /// The text that printing the value writes: `None` for a float, whose
    /// numeral the host writes.
    pub open spec fn text_spec(self) -> Option<Seq<char>> {
        match self {
            Value::F64(_) => None,
            Value::U64(v) => Some(decimal(v as nat)),
            Value::I64(v) => Some(signed_decimal(v as int)),
            Value::Bool(b) => Some(
                if b {
                    "true"@
                } else {
                    "false"@
                },
            ),
            Value::Char(c) => Some(seq![c]),
            Value::Addr(k) => Some("addr("@ + decimal(k as nat) + ")"@),
        }
    }
}

fn clamp_count(n: u64) -> (count: u32)
    ensures
        count == shift_count(n as nat),
{
    if n > 0xFFFF_FFFF {
        u32::MAX
    } else {
        n as u32
    }
}

fn shift_unsigned(left: bool, a: u64, n: u64) -> (shifted: u64)
    ensures
        shifted == shift_u64(left, a, n as nat),
{
    if left {
        a.wrapping_shl(clamp_count(n))
    } else {
        a.wrapping_shr(clamp_count(n))
    }
}

fn shift_signed(left: bool, a: i64, n: u64) -> (shifted: i64)
    ensures
        shifted == shift_i64(left, a, n as nat),
{
    if left {
        a.wrapping_shl(clamp_count(n))
    } else {
        a.wrapping_shr(clamp_count(n))
    }
}

/// The magnitude of a negative count.
fn magnitude(n: i64) -> (m: u64)
    requires
        n < 0,
    ensures
        m == -n,
{
    (-(n as i128)) as u64
}

fn float_less(a: u64, b: u64) -> (less: bool)
    ensures
        less == float_lt(a, b),
{
    let a_negative = a >= SIGN_BIT;
    let b_negative = b >= SIGN_BIT;
    let a_magnitude = if a_negative {
        a - SIGN_BIT
    } else {
        a
    };
    let b_magnitude = if b_negative {
        b - SIGN_BIT
    } else {
        b
    };
    if a_magnitude > INFINITY_BITS || b_magnitude > INFINITY_BITS {
        false
    } else if a_negative && b_negative {
        a_magnitude > b_magnitude
    } else if a_negative {
        a_magnitude > 0 || b_magnitude > 0
    } else if b_negative {
        false
    } else {
        a_magnitude < b_magnitude
    }
}

fn float_equal(a: u64, b: u64) -> (equal: bool)
    ensures
        equal == float_eq(a, b),
{
    let a_magnitude = if a >= SIGN_BIT {
        a - SIGN_BIT
    } else {
        a
    };
    let b_magnitude = if b >= SIGN_BIT {
        b - SIGN_BIT
    } else {
        b
    };
    if a_magnitude > INFINITY_BITS || b_magnitude > INFINITY_BITS {
        false
    } else {
        a == b || (a_magnitude == 0 && b_magnitude == 0)
    }
}

impl Value {
    /// Unary `-`, in place: the sign of a float or of a signed integer is
    /// changed (wrapping at `i64::MIN`); every other value is refused and
    /// left as it is.
    pub fn arithmetic_negate(&mut self) -> (result: Result<(), String>)
        ensures
            same_unit(result, old(self).negated()),
            match old(self).negated() {
                Ok(value) => *final(self) == value,
                Err(_) => *final(self) == *old(self),
            },
    {
        match *self {
            Value::F64(bits) => {
                *self = Value::F64(
                    if bits >= SIGN_BIT {
                        bits - SIGN_BIT
                    } else {
                        bits + SIGN_BIT
                    },
                );
                Ok(())
            },
            Value::U64(_) => Err(
                String::from_str("It is not possible to negate a number of type u64"),
            ),
            Value::I64(v) => {
                *self = Value::I64(0i64.wrapping_sub(v));
                Ok(())
            },
            Value::Bool(_) => Err(
                String::from_str("It is not possible to arithmetically negate a boolean"),
            ),
            Value::Char(_) => Err(String::from_str("It is not possible to negate a character")),
            Value::Addr(_) => Err(String::from_str("It is not possible to negate an address")),
        }
    }

    /// Unary `!`, in place: a boolean is inverted; every other value is
    /// refused and left as it is.
    pub fn logic_negate(&mut self) -> (result: Result<(), String>)
        ensures
            same_unit(result, old(self).inverted()),
            match old(self).inverted() {
                Ok(value) => *final(self) == value,
                Err(_) => *final(self) == *old(self),
            },
    {
        match *self {
            Value::Bool(b) => {
                *self = Value::Bool(!b);
                Ok(())
            },
            _ => {
                let mut message = String::from_str("Operator '!' not supported for value of type ");
                message.append(self.type_info());
                Err(message)
            },
        }
    }

    /// `a < b` on two values of one type that has an order.
    pub fn lt(a: Value, b: Value) -> (result: Result<Value, String>)
        ensures
            same_value(result, Value::ordered(true, a, b)),
    {
        match (a, b) {
            (Value::F64(x), Value::F64(y)) => Ok(Value::Bool(float_less(x, y))),
            (Value::U64(x), Value::U64(y)) => Ok(Value::Bool(x < y)),
            (Value::I64(x), Value::I64(y)) => Ok(Value::Bool(x < y)),
            (Value::Char(x), Value::Char(y)) => Ok(Value::Bool(x < y)),
            _ => Err(unsupported("<", a, b)),
        }
    }

    /// `a > b` on two values of one type that has an order.
    pub fn gt(a: Value, b: Value) -> (result: Result<Value, String>)
        ensures
            same_value(result, Value::ordered(false, a, b)),
    {
        match (a, b) {
            (Value::F64(x), Value::F64(y)) => Ok(Value::Bool(float_less(y, x))),
            (Value::U64(x), Value::U64(y)) => Ok(Value::Bool(x > y)),
            (Value::I64(x), Value::I64(y)) => Ok(Value::Bool(x > y)),
            (Value::Char(x), Value::Char(y)) => Ok(Value::Bool(x > y)),
            _ => Err(unsupported(">", a, b)),
        }
    }

    /// `a == b` on two values of one type.
    pub fn eq(a: Value, b: Value) -> (result: Result<Value, String>)
        ensures
            same_value(result, Value::equated(a, b)),
    {
        match (a, b) {
            (Value::F64(x), Value::F64(y)) => Ok(Value::Bool(float_equal(x, y))),
            (Value::U64(x), Value::U64(y)) => Ok(Value::Bool(x == y)),
            (Value::I64(x), Value::I64(y)) => Ok(Value::Bool(x == y)),
            (Value::Bool(x), Value::Bool(y)) => Ok(Value::Bool(x == y)),
            (Value::Char(x), Value::Char(y)) => Ok(Value::Bool(x == y)),
            _ => Err(unsupported("==", a, b)),
        }
    }

    pub fn is_numeric_zero(&self) -> (zero: bool)
        ensures
            zero == self.is_numeric_zero_spec(),
    {
        match *self {
            Value::F64(bits) => bits == 0 || bits == SIGN_BIT,
            Value::U64(v) => v == 0,
            Value::I64(v) => v == 0,
            _ => false,
        }
    }

    pub fn type_info(&self) -> (name: &'static str)
        ensures
            name@ == self.type_info_spec(),
    {
        match self {
            Value::F64(_) => "f64",
            Value::U64(_) => "u64",
            Value::I64(_) => "i64",
            Value::Bool(_) => "bool",
            Value::Char(_) => "char",
            Value::Addr(_) => "addr",
        }
    }

    /// The text that printing the value writes, but for a float.
    pub fn to_text(&self) -> (text: Option<String>)
        ensures
            match text {
                Some(t) => self.text_spec() == Some(t@),
                None => self.text_spec() is None,
            },
    {
        let mut text = String::new();
        match *self {
            Value::F64(_) => {
                return None;
            },
            Value::U64(v) => {
                push_decimal(&mut text, v);
                assert(text@ =~= decimal(v as nat));
            },
            Value::I64(v) => {
                push_signed_decimal(&mut text, v);
                assert(text@ =~= signed_decimal(v as int));
            },
            Value::Bool(b) => {
                text.append(
                    if b {
                        "true"
                    } else {
                        "false"
                    },
                );
                assert(text@ =~= if b {
                    "true"@
                } else {
                    "false"@
                });
            },
            Value::Char(c) => {
                push_char(&mut text, c);
                assert(text@ =~= seq![c]);
            },
            Value::Addr(k) => {
                text.append("addr(");
                push_decimal(&mut text, k as u64);
                text.append(")");
                assert(text@ =~= "addr("@ + decimal(k as nat) + ")"@);
            },
        }
        Some(text)
    }

    /// `self + rhs`.
    pub fn add(self, rhs: Value) -> (result: Result<Outcome, String>)
        ensures
            same_outcome(result, Value::combined(FloatOp::Add, self, rhs)),
    {
        match (self, rhs) {
            (Value::F64(x), Value::F64(y)) => Ok(Outcome::Float { op: FloatOp::Add, lhs: x, rhs: y }),
            (Value::U64(x), Value::U64(y)) => Ok(Outcome::Done(Value::U64(x.wrapping_add(y)))),
            (Value::I64(x), Value::I64(y)) => Ok(Outcome::Done(Value::I64(x.wrapping_add(y)))),
            _ => Err(unsupported("+", self, rhs)),
        }
    }

    /// `self - rhs`.
    pub fn sub(self, rhs: Value) -> (result: Result<Outcome, String>)
        ensures
            same_outcome(result, Value::combined(FloatOp::Subtract, self, rhs)),
    {
        match (self, rhs) {
            (Value::F64(x), Value::F64(y)) => Ok(
                Outcome::Float { op: FloatOp::Subtract, lhs: x, rhs: y },
            ),
            (Value::U64(x), Value::U64(y)) => Ok(Outcome::Done(Value::U64(x.wrapping_sub(y)))),
            (Value::I64(x), Value::I64(y)) => Ok(Outcome::Done(Value::I64(x.wrapping_sub(y)))),
            _ => Err(unsupported("-", self, rhs)),
        }
    }

    /// `self * rhs`.
    pub fn mul(self, rhs: Value) -> (result: Result<Outcome, String>)
        ensures
            same_outcome(result, Value::combined(FloatOp::Multiply, self, rhs)),
    {
        match (self, rhs) {
            (Value::F64(x), Value::F64(y)) => Ok(
                Outcome::Float { op: FloatOp::Multiply, lhs: x, rhs: y },
            ),
            (Value::U64(x), Value::U64(y)) => Ok(Outcome::Done(Value::U64(x.wrapping_mul(y)))),
            (Value::I64(x), Value::I64(y)) => Ok(Outcome::Done(Value::I64(x.wrapping_mul(y)))),
            _ => Err(unsupported("*", self, rhs)),
        }
    }

    /// `self / rhs`.
    pub fn div(self, rhs: Value) -> (result: Result<Outcome, String>)
        ensures
            same_outcome(result, Value::divided(true, self, rhs)),
    {
        let numeric = match self {
            Value::F64(_) => true,
            Value::U64(_) => true,
            Value::I64(_) => true,
            _ => false,
        };
        if numeric && rhs.is_numeric_zero() {
            return Err(String::from_str("Division by 0"));
        }
        match (self, rhs) {
            (Value::F64(x), Value::F64(y)) => Ok(
                Outcome::Float { op: FloatOp::Divide, lhs: x, rhs: y },
            ),
            (Value::U64(x), Value::U64(y)) => Ok(Outcome::Done(Value::U64(x / y))),
            (Value::I64(x), Value::I64(y)) => {
                let quotient = match x.checked_div(y) {
                    Some(q) => q,
                    None => i64::MIN,
                };
                proof {
                    lemma_truncated_quotient(x as int, y as int);
                }
                Ok(Outcome::Done(Value::I64(quotient)))
            },
            _ => Err(unsupported("/", self, rhs)),
        }
    }

    /// `self % rhs`.
    pub fn rem(self, rhs: Value) -> (result: Result<Outcome, String>)
        ensures
            same_outcome(result, Value::divided(false, self, rhs)),
    {
        let numeric = match self {
            Value::F64(_) => true,
            Value::U64(_) => true,
            Value::I64(_) => true,
            _ => false,
        };
        if numeric && rhs.is_numeric_zero() {
            return Err(String::from_str("Division by 0"));
        }
        match (self, rhs) {
            (Value::F64(x), Value::F64(y)) => Ok(
                Outcome::Float { op: FloatOp::Modulo, lhs: x, rhs: y },
            ),
            (Value::U64(x), Value::U64(y)) => Ok(Outcome::Done(Value::U64(x % y))),
            (Value::I64(x), Value::I64(y)) => {
                let remainder = match x.checked_rem(y) {
                    Some(r) => r,
                    None => 0,
                };
                proof {
                    lemma_truncated_remainder(x as int, y as int);
                }
                Ok(Outcome::Done(Value::I64(remainder)))
            },
            _ => Err(unsupported("%", self, rhs)),
        }
    }

    /// `self << rhs`.
    pub fn shl(self, rhs: Value) -> (result: Result<Value, String>)
        ensures
            same_value(result, Value::shifted(true, self, rhs)),
    {
        Value::shift(true, self, rhs)
    }

    /// `self >> rhs`: the sign is kept when `self` is signed.
    pub fn shr(self, rhs: Value) -> (result: Result<Value, String>)
        ensures
            same_value(result, Value::shifted(false, self, rhs)),
    {
        Value::shift(false, self, rhs)
    }

    fn shift(left: bool, a: Value, b: Value) -> (result: Result<Value, String>)
        ensures
            same_value(result, Value::shifted(left, a, b)),
    {
        match (a, b) {
            (Value::U64(x), Value::U64(n)) => Ok(Value::U64(shift_unsigned(left, x, n))),
            (Value::U64(x), Value::I64(n)) => {
                if n < 0 {
                    Ok(Value::U64(shift_unsigned(!left, x, magnitude(n))))
                } else {
                    Ok(Value::U64(shift_unsigned(left, x, n as u64)))
                }
            },
            (Value::I64(x), Value::I64(n)) => {
                if n < 0 {
                    Ok(Value::I64(shift_signed(!left, x, magnitude(n))))
                } else {
                    Ok(Value::I64(shift_signed(left, x, n as u64)))
                }
            },
            _ => Err(unsupported("<<", a, b)),
        }
    }

    /// Applies the binary operator `op`.
    pub fn apply(op: BinaryOp, a: Value, b: Value) -> (result: Result<Outcome, String>)
        ensures
            same_outcome(result, Value::binary(op, a, b)),
    {
        match op {
            BinaryOp::Add => a.add(b),
            BinaryOp::Subtract => a.sub(b),
            BinaryOp::Multiply => a.mul(b),
            BinaryOp::Divide => a.div(b),
            BinaryOp::Modulo => a.rem(b),
            BinaryOp::ShiftLeft => finish(a.shl(b)),
            BinaryOp::ShiftRight => finish(a.shr(b)),
            BinaryOp::Equal => finish(Value::eq(a, b)),
            BinaryOp::Greater => finish(Value::gt(a, b)),
            BinaryOp::Less => finish(Value::lt(a, b)),
        }
    }
}

fn finish(result: Result<Value, String>) -> (outcome: Result<Outcome, String>)
    ensures
        forall|want: Result<Value, Seq<char>>| same_value(result, want) ==> same_outcome(outcome, done(want)),
{
    match result {
        Ok(value) => Ok(Outcome::Done(value)),
        Err(message) => Err(message),
    }
}

proof fn lemma_truncated_quotient(a: int, b: int)
    requires
        b != 0,
    ensures
        truncated_quotient(a, b) == if a == 0 {
            0
        } else if a > 0 && b > 0 {
            a / b
        } else if a < 0 && b < 0 {
            ((a * -1) / (b * -1))
        } else if a < 0 {
            ((a * -1) / b) * -1
        } else {
            (a / (b * -1)) * -1
        },
        -abs(a) <= truncated_quotient(a, b) <= abs(a),
        abs(b) > 1 && a != 0 ==> truncated_quotient(a, b) < abs(a),
{
    let n = abs(a);
    let d = abs(b);
    assert(0 <= n / d <= n && (n == 0 ==> n / d == 0) && (d > 1 && n > 0 ==> n / d < n))
        by (nonlinear_arith)
        requires
            n >= 0,
            d > 0,
    ;
}

proof fn lemma_truncated_remainder(a: int, b: int)
    requires
        b != 0,
    ensures
        truncated_remainder(a, b) == if a == 0 {
            0
        } else if a > 0 && b > 0 {
            a % b
        } else if a < 0 && b < 0 {
            ((a * -1) % (b * -1)) * -1
        } else if a < 0 {
            ((a * -1) % b) * -1
        } else {
            a % (b * -1)
        },
        -abs(b) < truncated_remainder(a, b) < abs(b),
{
    if a == 0 {
        assert(0int % abs(b) == 0) by (nonlinear_arith)
            requires
                abs(b) > 0,
        ;
    }
    assert(0 <= abs(a) % abs(b) < abs(b)) by (nonlinear_arith)
        requires
            abs(b) > 0,
    ;
}

pub open spec fn done(result: Result<Value, Seq<char>>) -> Result<Outcome, Seq<char>> {
    match result {
        Ok(value) => Ok(Outcome::Done(value)),
        Err(message) => Err(message),
    }
}

/// Both float zeros and the integer zeros are numerically zero.
pub proof fn lemma_zeros()
    ensures
        Value::F64(0).is_numeric_zero_spec(),
        Value::F64(SIGN_BIT).is_numeric_zero_spec(),
        Value::I64(0).is_numeric_zero_spec(),
        Value::U64(0).is_numeric_zero_spec(),
{
}

/// Dividing a number by a numerically zero value, or taking the
/// remainder, fails with `Division by 0`, whatever the two types.
pub proof fn lemma_division_by_zero(a: Value, zero: Value)
    requires
        a.is_number(),
        zero.is_numeric_zero_spec(),
    ensures
        Value::binary(BinaryOp::Divide, a, zero) == Err::<Outcome, Seq<char>>("Division by 0"@),
        Value::binary(BinaryOp::Modulo, a, zero) == Err::<Outcome, Seq<char>>("Division by 0"@),
{
}

} // verus!
