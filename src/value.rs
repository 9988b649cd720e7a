use vstd::prelude::*;

verus! {

/// A register value: a tagged scalar or a handle into the object pool.
///
/// Floating-point payloads are carried as their IEEE 754 bit patterns; the
/// library moves them around and tests them for zero, while the arithmetic on
/// them is left to the embedding host.
#[derive(Clone, Copy, Debug, PartialEq, Eq, Structural)]
pub enum Value {
    /// 32-bit integer.
    Int(i32),
    /// 64-bit integer.
    Long(i64),
    /// Bit pattern of a 32-bit float.
    Float(u32),
    /// Bit pattern of a 64-bit float.
    Double(u64),
    /// Handle of an object in the pool.
    Object(usize),
    /// The null reference.
    Null,
    /// Boolean.
    Bool(bool),
}

/// Binary arithmetic operators.
#[derive(Clone, Copy, Debug, PartialEq, Eq, Structural)]
pub enum ArithOp {
    Add,
    Sub,
    Mul,
    Div,
    Rem,
}

/// Comparison operators.
#[derive(Clone, Copy, Debug, PartialEq, Eq, Structural)]
pub enum CompareOp {
    Gt,
    Ge,
    Lt,
    Le,
    Eq,
    Neq,
}

/// Integer bitwise operators.
#[derive(Clone, Copy, Debug, PartialEq, Eq, Structural)]
pub enum BitOp {
    And,
    Or,
    Xor,
    Shl,
    Shr,
}

/// What evaluating a binary operator on two values gives.
#[derive(Clone, Copy, Debug, PartialEq, Eq, Structural)]
pub enum Evaluation {
    /// The operator produced this value.
    Done(Value),
    /// The operand pair is not supported by the operator.
    Unsupported,
    /// A floating-point operand drives the result: the host computes it.
    Floating,
}

pub open spec fn is_floating(v: Value) -> bool {
    v is Float || v is Double
}

/// Whether a floating-point operand drives a binary operator on `a` and `b`:
/// the left one is floating, or the left one is an integer and the right one
/// floating.
pub open spec fn floating_drives(a: Value, b: Value) -> bool {
    is_floating(a) || (is_floating(b) && (a is Int || a is Long))
}

/// Logical negation: true on null, numeric zero (of either sign for floats)
/// and `false`; false otherwise.
pub open spec fn not_spec(v: Value) -> bool {
    match v {
        Value::Null => true,
        Value::Int(i) => i == 0,
        Value::Long(l) => l == 0,
        Value::Float(b) => b & 0x7fff_ffffu32 == 0,
        Value::Double(b) => b & 0x7fff_ffff_ffff_ffffu64 == 0,
        Value::Bool(b) => !b,
        Value::Object(_) => false,
    }
}

pub open spec fn int_arith(op: ArithOp, a: i32, b: i32) -> Option<i32> {
    match op {
        ArithOp::Add => Some(a.wrapping_add(b)),
        ArithOp::Sub => Some(a.wrapping_sub(b)),
        ArithOp::Mul => Some(a.wrapping_mul(b)),
        ArithOp::Div => a.checked_div(b),
        ArithOp::Rem => a.checked_rem(b),
    }
}

pub open spec fn long_arith(op: ArithOp, a: i64, b: i64) -> Option<i64> {
    match op {
        ArithOp::Add => Some(a.wrapping_add(b)),
        ArithOp::Sub => Some(a.wrapping_sub(b)),
        ArithOp::Mul => Some(a.wrapping_mul(b)),
        ArithOp::Div => a.checked_div(b),
        ArithOp::Rem => a.checked_rem(b),
    }
}

pub open spec fn int_done(r: Option<i32>) -> Evaluation {
    match r {
        Some(i) => Evaluation::Done(Value::Int(i)),
        None => Evaluation::Unsupported,
    }
}

pub open spec fn long_done(r: Option<i64>) -> Evaluation {
    match r {
        Some(l) => Evaluation::Done(Value::Long(l)),
        None => Evaluation::Unsupported,
    }
}

pub open spec fn bool_num(b: bool) -> int {
    if b { 1 } else { 0 }
}

/// Arithmetic with the promotion rules of the machine.
///
/// `coerced` is the number that the right operand converts to when it is an
/// object handle (the object protocol's conversion); `None` when the object
/// has no numeric reading.
pub open spec fn arith_spec(op: ArithOp, a: Value, b: Value, coerced: Option<i64>) -> Evaluation {
    if b is Null {
        Evaluation::Done(a)
    } else if a is Null {
        Evaluation::Done(b)
    } else {
        match (a, b) {
            (Value::Int(x), Value::Int(y)) => int_done(int_arith(op, x, y)),
            (Value::Long(x), Value::Long(y)) => long_done(long_arith(op, x, y)),
            (Value::Int(x), Value::Long(y)) => long_done(long_arith(op, x as i64, y)),
            (Value::Long(x), Value::Int(y)) => long_done(long_arith(op, x, y as i64)),
            (Value::Int(x), Value::Bool(y)) => int_done(int_arith(op, x, bool_num(y) as i32)),
            (Value::Long(x), Value::Bool(y)) => long_done(long_arith(op, x, bool_num(y) as i64)),
            (Value::Int(x), Value::Object(_)) => match coerced {
                Some(c) => if i32::MIN <= c <= i32::MAX {
                    int_done(int_arith(op, x, c as i32))
                } else {
                    Evaluation::Unsupported
                },
                None => Evaluation::Unsupported,
            },
            (Value::Long(x), Value::Object(_)) => match coerced {
                Some(c) => long_done(long_arith(op, x, c)),
                None => Evaluation::Unsupported,
            },
            _ => if floating_drives(a, b) {
                Evaluation::Floating
            } else {
                Evaluation::Unsupported
            },
        }
    }
}

pub open spec fn compare_int(op: CompareOp, x: int, y: int) -> bool {
    match op {
        CompareOp::Gt => x > y,
        CompareOp::Ge => x >= y,
        CompareOp::Lt => x < y,
        CompareOp::Le => x <= y,
        CompareOp::Eq => x == y,
        CompareOp::Neq => x != y,
    }
}

/// Comparison with the promotion rules of the machine; any null operand
/// compares false.
pub open spec fn compare_spec(op: CompareOp, a: Value, b: Value, coerced: Option<i64>) -> Evaluation {
    if a is Null || b is Null {
        Evaluation::Done(Value::Bool(false))
    } else {
        match (a, b) {
            (Value::Int(x), Value::Int(y)) => Evaluation::Done(Value::Bool(compare_int(op, x as int, y as int))),
            (Value::Long(x), Value::Long(y)) => Evaluation::Done(Value::Bool(compare_int(op, x as int, y as int))),
            (Value::Int(x), Value::Long(y)) => Evaluation::Done(Value::Bool(compare_int(op, x as int, y as int))),
            (Value::Long(x), Value::Int(y)) => Evaluation::Done(Value::Bool(compare_int(op, x as int, y as int))),
            (Value::Int(x), Value::Bool(y)) => Evaluation::Done(Value::Bool(compare_int(op, x as int, bool_num(y)))),
            (Value::Long(x), Value::Bool(y)) => Evaluation::Done(Value::Bool(compare_int(op, x as int, bool_num(y)))),
            (Value::Int(x), Value::Object(_)) => match coerced {
                Some(c) => if i32::MIN <= c <= i32::MAX {
                    Evaluation::Done(Value::Bool(compare_int(op, x as int, c as int)))
                } else {
                    Evaluation::Unsupported
                },
                None => Evaluation::Unsupported,
            },
            (Value::Long(x), Value::Object(_)) => match coerced {
                Some(c) => Evaluation::Done(Value::Bool(compare_int(op, x as int, c as int))),
                None => Evaluation::Unsupported,
            },
            (Value::Bool(x), Value::Bool(y)) => match op {
                CompareOp::Eq => Evaluation::Done(Value::Bool(x == y)),
                CompareOp::Neq => Evaluation::Done(Value::Bool(x != y)),
                _ => Evaluation::Unsupported,
            },
            _ => if floating_drives(a, b) {
                Evaluation::Floating
            } else {
                Evaluation::Unsupported
            },
        }
    }
}

/// Bitwise operators on two `Int`s or two `Long`s; shift amounts wrap at the
/// operand width.
pub open spec fn bit_spec(op: BitOp, a: Value, b: Value) -> Option<Value> {
    match (a, b) {
        (Value::Int(x), Value::Int(y)) => Some(Value::Int(match op {
            BitOp::And => x & y,
            BitOp::Or => x | y,
            BitOp::Xor => x ^ y,
            BitOp::Shl => x.wrapping_shl(y as u32),
            BitOp::Shr => x.wrapping_shr(y as u32),
        })),
        (Value::Long(x), Value::Long(y)) => Some(Value::Long(match op {
            BitOp::And => x & y,
            BitOp::Or => x | y,
            BitOp::Xor => x ^ y,
            BitOp::Shl => x.wrapping_shl(y as u32),
            BitOp::Shr => x.wrapping_shr(y as u32),
        })),
        _ => None,
    }
}

fn int_op(op: ArithOp, a: i32, b: i32) -> (r: Option<i32>)
    ensures
        r == int_arith(op, a, b),
{
    match op {
        ArithOp::Add => Some(a.wrapping_add(b)),
        ArithOp::Sub => Some(a.wrapping_sub(b)),
        ArithOp::Mul => Some(a.wrapping_mul(b)),
        ArithOp::Div => a.checked_div(b),
        ArithOp::Rem => a.checked_rem(b),
    }
}

fn long_op(op: ArithOp, a: i64, b: i64) -> (r: Option<i64>)
    ensures
        r == long_arith(op, a, b),
{
    match op {
        ArithOp::Add => Some(a.wrapping_add(b)),
        ArithOp::Sub => Some(a.wrapping_sub(b)),
        ArithOp::Mul => Some(a.wrapping_mul(b)),
        ArithOp::Div => a.checked_div(b),
        ArithOp::Rem => a.checked_rem(b),
    }
}

fn int_result(r: Option<i32>) -> (e: Evaluation)
    ensures
        e == int_done(r),
{
    match r {
        Some(i) => Evaluation::Done(Value::Int(i)),
        None => Evaluation::Unsupported,
    }
}

fn long_result(r: Option<i64>) -> (e: Evaluation)
    ensures
        e == long_done(r),
{
    match r {
        Some(l) => Evaluation::Done(Value::Long(l)),
        None => Evaluation::Unsupported,
    }
}

fn compare_ints(op: CompareOp, x: i64, y: i64) -> (r: bool)
    ensures
        r == compare_int(op, x as int, y as int),
{
    match op {
        CompareOp::Gt => x > y,
        CompareOp::Ge => x >= y,
        CompareOp::Lt => x < y,
        CompareOp::Le => x <= y,
        CompareOp::Eq => x == y,
        CompareOp::Neq => x != y,
    }
}

impl Value {
    /// Whether the value carries a floating-point payload.
    pub fn is_floating(&self) -> (r: bool)
        ensures
            r == is_floating(*self),
    {
        match self {
            Value::Float(_) | Value::Double(_) => true,
            _ => false,
        }
    }

    /// Logical negation, as the `Not` instruction computes it.
    pub fn not(&self) -> (r: bool)
        ensures
            r == not_spec(*self),
    {
        match self {
            Value::Null => true,
            Value::Int(i) => *i == 0,
            Value::Long(l) => *l == 0,
            Value::Float(b) => *b & 0x7fff_ffffu32 == 0,
            Value::Double(b) => *b & 0x7fff_ffff_ffff_ffffu64 == 0,
            Value::Bool(b) => !*b,
            Value::Object(_) => false,
        }
    }

    /// Binary arithmetic; `coerced` is what an object right operand converts to.
    pub fn arith(op: ArithOp, a: Value, b: Value, coerced: Option<i64>) -> (r: Evaluation)
        ensures
            r == arith_spec(op, a, b, coerced),
    {
        if let Value::Null = b {
            return Evaluation::Done(a);
        }
        if let Value::Null = a {
            return Evaluation::Done(b);
        }
        match (a, b) {
            (Value::Int(x), Value::Int(y)) => int_result(int_op(op, x, y)),
            (Value::Long(x), Value::Long(y)) => long_result(long_op(op, x, y)),
            (Value::Int(x), Value::Long(y)) => long_result(long_op(op, x as i64, y)),
            (Value::Long(x), Value::Int(y)) => long_result(long_op(op, x, y as i64)),
            (Value::Int(x), Value::Bool(y)) => int_result(int_op(op, x, if y { 1 } else { 0 })),
            (Value::Long(x), Value::Bool(y)) => long_result(long_op(op, x, if y { 1 } else { 0 })),
            (Value::Int(x), Value::Object(_)) => match coerced {
                Some(c) => if i32::MIN as i64 <= c && c <= i32::MAX as i64 {
                    int_result(int_op(op, x, c as i32))
                } else {
                    Evaluation::Unsupported
                },
                None => Evaluation::Unsupported,
            },
            (Value::Long(x), Value::Object(_)) => match coerced {
                Some(c) => long_result(long_op(op, x, c)),
                None => Evaluation::Unsupported,
            },
            _ => if a.is_floating() || (b.is_floating() && matches!(a, Value::Int(_) | Value::Long(_))) {
                Evaluation::Floating
            } else {
                Evaluation::Unsupported
            },
        }
    }

    /// Comparison; `coerced` is what an object right operand converts to.
    pub fn compare(op: CompareOp, a: Value, b: Value, coerced: Option<i64>) -> (r: Evaluation)
        ensures
            r == compare_spec(op, a, b, coerced),
    {
        match (a, b) {
            (Value::Null, _) | (_, Value::Null) => Evaluation::Done(Value::Bool(false)),
            (Value::Int(x), Value::Int(y)) => Evaluation::Done(Value::Bool(compare_ints(op, x as i64, y as i64))),
            (Value::Long(x), Value::Long(y)) => Evaluation::Done(Value::Bool(compare_ints(op, x, y))),
            (Value::Int(x), Value::Long(y)) => Evaluation::Done(Value::Bool(compare_ints(op, x as i64, y))),
            (Value::Long(x), Value::Int(y)) => Evaluation::Done(Value::Bool(compare_ints(op, x, y as i64))),
            (Value::Int(x), Value::Bool(y)) => Evaluation::Done(Value::Bool(compare_ints(op, x as i64, if y { 1 } else { 0 }))),
            (Value::Long(x), Value::Bool(y)) => Evaluation::Done(Value::Bool(compare_ints(op, x, if y { 1 } else { 0 }))),
            (Value::Int(x), Value::Object(_)) => match coerced {
                Some(c) => if i32::MIN as i64 <= c && c <= i32::MAX as i64 {
                    Evaluation::Done(Value::Bool(compare_ints(op, x as i64, c)))
                } else {
                    Evaluation::Unsupported
                },
                None => Evaluation::Unsupported,
            },
            (Value::Long(x), Value::Object(_)) => match coerced {
                Some(c) => Evaluation::Done(Value::Bool(compare_ints(op, x, c))),
                None => Evaluation::Unsupported,
            },
            (Value::Bool(x), Value::Bool(y)) => match op {
                CompareOp::Eq => Evaluation::Done(Value::Bool(x == y)),
                CompareOp::Neq => Evaluation::Done(Value::Bool(x != y)),
                _ => Evaluation::Unsupported,
            },
            _ => if a.is_floating() || (b.is_floating() && matches!(a, Value::Int(_) | Value::Long(_))) {
                Evaluation::Floating
            } else {
                Evaluation::Unsupported
            },
        }
    }

    /// Bitwise operators on two `Int`s or two `Long`s.
    pub fn bitwise(op: BitOp, a: Value, b: Value) -> (r: Option<Value>)
        ensures
            r == bit_spec(op, a, b),
    {
        match (a, b) {
            (Value::Int(x), Value::Int(y)) => Some(Value::Int(match op {
                BitOp::And => x & y,
                BitOp::Or => x | y,
                BitOp::Xor => x ^ y,
                BitOp::Shl => x.wrapping_shl(y as u32),
                BitOp::Shr => x.wrapping_shr(y as u32),
            })),
            (Value::Long(x), Value::Long(y)) => Some(Value::Long(match op {
                BitOp::And => x & y,
                BitOp::Or => x | y,
                BitOp::Xor => x ^ y,
                BitOp::Shl => x.wrapping_shl(y as u32),
                BitOp::Shr => x.wrapping_shr(y as u32),
            })),
            _ => None,
        }
    }
}

} // verus!
