//! `Number`: 32-bit integers.
use vstd::prelude::*;

use crate::lang::value::{binary, GValue, Operation, ValueKind};
use crate::text::{concat, decimal, int_to_text};

verus! {

/// The absolute value of an integer.
pub open spec fn abs(a: int) -> int {
    if a < 0 { -a } else { a }
}

/// Rust's `/` on integers: the quotient rounded towards zero.
pub open spec fn trunc_div(a: int, b: int) -> int {
    if (a < 0) == (b < 0) { abs(a) / abs(b) } else { -(abs(a) / abs(b)) }
}

/// Rust's `%` on integers: the remainder takes the sign of the dividend.
pub open spec fn trunc_rem(a: int, b: int) -> int {
    if a < 0 { -(abs(a) % abs(b)) } else { abs(a) % abs(b) }
}

/// The operations that `Number` supports.
pub open spec fn number_supports(op: Operation) -> bool {
    match op {
        Operation::New | Operation::Get => false,
        _ => true,
    }
}

/// An integer brought into `i32` the way two's-complement arithmetic wraps it: the
/// value of `i32` congruent to `x` modulo 2^32.
pub open spec fn wrap_i32(x: int) -> int {
    if x % 0x1_0000_0000 > i32::MAX as int {
        x % 0x1_0000_0000 - 0x1_0000_0000
    } else {
        x % 0x1_0000_0000
    }
}

/// Whether `this op other` joins texts: a number plus a string.
pub open spec fn number_joins(op: Operation, other: GValue) -> bool {
    op == Operation::Add && other.kind == ValueKind::String
}

/// The type and payload of `this op other` on a number. `+`, `-` and `*` wrap around
/// on overflow, as the release build of the virtual machine computes them.
pub open spec fn number_result(op: Operation, a: int, other: GValue) -> (ValueKind, int) {
    let b = other.value as int;
    match op {
        Operation::Add => (ValueKind::Number, wrap_i32(a + b)),
        Operation::Sub => (ValueKind::Number, wrap_i32(a - b)),
        Operation::Mult => (ValueKind::Number, wrap_i32(a * b)),
        Operation::Div => (ValueKind::Number, if b == 0 { 0 } else { trunc_div(a, b) }),
        Operation::Mod => (ValueKind::Number, if b == 0 { 0 } else { trunc_rem(a, b) }),
        Operation::Not => (ValueKind::Boolean, if a == 0 { 1 } else { 0 }),
        Operation::Eql => (ValueKind::Boolean, if a == b { 1 } else { 0 }),
        Operation::Gt => (ValueKind::Boolean, if a > b { 1 } else { 0 }),
        Operation::Lt => (ValueKind::Boolean, if a < b { 1 } else { 0 }),
        _ => (ValueKind::Undefined, 0),
    }
}

/// Whether Rust's integer operators compute `this op other` without panicking: they
/// panic on `i32::MIN / -1` and `i32::MIN % -1`, even where other overflow wraps.
pub open spec fn number_fits(op: Operation, a: int, other: GValue) -> bool {
    (op == Operation::Div || op == Operation::Mod) ==> !(a == i32::MIN && other.value == -1)
}

/// Placeholder operand for an operation that takes none.
pub open spec fn no_operand() -> GValue {
    GValue { kind: ValueKind::Undefined, value: 0 }
}

pub open spec fn operand(other: Option<GValue>) -> GValue {
    match other {
        Some(v) => v,
        None => no_operand(),
    }
}

#[derive(Debug, Clone, Copy)]
pub struct NumberType;

impl NumberType {
    pub fn name(&self) -> (r: &'static str)
        ensures
            r@ == "Number"@,
    {
        "Number"
    }

    pub fn supports_operation(&self, op: Operation) -> (r: bool)
        ensures
            r == number_supports(op),
    {
        match op {
            Operation::New | Operation::Get => false,
            _ => true,
        }
    }

    /// Whether a value of type `other` is a number.
    pub fn is_instance(&self, other: ValueKind) -> (r: bool)
        ensures
            r == (other == ValueKind::Number),
    {
        other == ValueKind::Number
    }

    /// The text of `this + other` for a string `other` whose text is `other_text`: the
    /// number's decimal digits followed by the string's text.
    pub fn concatenate(&self, this_value: GValue, other_text: &str) -> (r: String)
        ensures
            r@ == decimal(this_value.value as int) + other_text@,
    {
        let digits = int_to_text(this_value.value);
        concat(digits.as_str(), other_text)
    }

    /// `this op other` where `this` is a number and the operation computes a number or
    /// a boolean (a number plus a string is `concatenate`). `+`, `-` and `*` wrap on
    /// overflow; division and remainder by zero give 0; `!`, `==`, `>` and `<` give
    /// booleans.
    pub fn perform(&self, op: Operation, this_value: GValue, other_value: Option<GValue>) -> (r: GValue)
        requires
            number_supports(op),
            binary(op) ==> other_value is Some,
            !number_joins(op, operand(other_value)),
            number_fits(op, this_value.value as int, operand(other_value)),
        ensures
            r.kind == number_result(op, this_value.value as int, operand(other_value)).0,
            r.value as int == number_result(op, this_value.value as int, operand(other_value)).1,
    {
        let a = this_value.value;
        match op {
            Operation::Not => {
                return GValue::boolean(a == 0);
            },
            _ => {},
        }
        let other = match other_value {
            Some(v) => v,
            None => GValue::undefined(),
        };
        let b = other.value;
        match op {
            Operation::Add => {
                let r = a.wrapping_add(b);
                proof {
                    lemma_wrap_sum(a as int + b as int);
                }
                GValue::new(r, ValueKind::Number)
            },
            Operation::Sub => {
                let r = a.wrapping_sub(b);
                proof {
                    lemma_wrap_sum(a as int - b as int);
                }
                GValue::new(r, ValueKind::Number)
            },
            Operation::Mult => GValue::new(a.wrapping_mul(b), ValueKind::Number),
            Operation::Div => {
                if b == 0 {
                    GValue::new(0, ValueKind::Number)
                } else {
                    GValue::new(truncating_div(a, b), ValueKind::Number)
                }
            },
            Operation::Mod => {
                if b == 0 {
                    GValue::new(0, ValueKind::Number)
                } else {
                    GValue::new(truncating_rem(a, b), ValueKind::Number)
                }
            },
            Operation::Eql => GValue::boolean(a == b),
            Operation::Gt => GValue::boolean(a > b),
            _ => GValue::boolean(a < b),
        }
    }
}

/// A sum or difference of two `i32` values wraps by at most one turn of 2^32.
proof fn lemma_wrap_sum(x: int)
    requires
        2 * (i32::MIN as int) <= x <= 2 * (i32::MAX as int) + 1,
    ensures
        wrap_i32(x) == if x > i32::MAX { x - 0x1_0000_0000 } else if x < i32::MIN { x + 0x1_0000_0000 } else { x },
{
    let r = 0x1_0000_0000int;
    if x >= r {
        assert(x % r == x - r) by (nonlinear_arith) requires r <= x < 2 * r, r == 0x1_0000_0000int;
    } else if x >= 0 {
        assert(x % r == x) by (nonlinear_arith) requires 0 <= x < r, r == 0x1_0000_0000int;
    } else if x >= -r {
        assert(x % r == x + r) by (nonlinear_arith) requires -r <= x < 0, r == 0x1_0000_0000int;
    } else {
        assert(x % r == x + 2 * r) by (nonlinear_arith) requires -2 * r <= x < -r, r == 0x1_0000_0000int;
    }
}

/// `a / b` on `i32`, rounding towards zero.
fn truncating_div(a: i32, b: i32) -> (r: i32)
    requires
        b != 0,
        !(a == i32::MIN && b == -1),
    ensures
        r as int == trunc_div(a as int, b as int),
{
    let x: i64 = a as i64;
    let y: i64 = b as i64;
    let ux: i64 = if x < 0 { -x } else { x };
    let uy: i64 = if y < 0 { -y } else { y };
    let q: i64 = ux / uy;
    assert(0 <= q <= ux) by (nonlinear_arith)
        requires
            ux >= 0,
            uy >= 1,
            q == ux / uy,
    ;
    assert(uy >= 2 ==> q <= ux / 2) by (nonlinear_arith)
        requires
            ux >= 0,
            uy >= 1,
            q == ux / uy,
    ;
    if (x < 0) == (y < 0) {
        q as i32
    } else {
        (-q) as i32
    }
}

/// `a % b` on `i32`: the remainder takes the sign of `a`.
fn truncating_rem(a: i32, b: i32) -> (r: i32)
    requires
        b != 0,
        !(a == i32::MIN && b == -1),
    ensures
        r as int == trunc_rem(a as int, b as int),
{
    let x: i64 = a as i64;
    let y: i64 = b as i64;
    let ux: i64 = if x < 0 { -x } else { x };
    let uy: i64 = if y < 0 { -y } else { y };
    let m: i64 = ux % uy;
    assert(0 <= m < uy) by (nonlinear_arith)
        requires
            uy >= 1,
            m == ux % uy,
    ;
    if x < 0 {
        (-m) as i32
    } else {
        m as i32
    }
}

/// The comparisons and `!` on numbers answer true (payload 1) or false (payload 0) as
/// the integers compare: `>` exactly when the first is larger, `<` when it is smaller,
/// `==` when they are equal, `!` when the number is zero. `+`, `-` and `*` give the exact
/// result whenever it fits in `i32`.
pub proof fn lemma_number_meaning(a: i32, b: i32)
    ensures
        number_result(Operation::Gt, a as int, GValue { kind: ValueKind::Number, value: b })
            == (ValueKind::Boolean, if a > b { 1int } else { 0int }),
        number_result(Operation::Lt, a as int, GValue { kind: ValueKind::Number, value: b })
            == (ValueKind::Boolean, if a < b { 1int } else { 0int }),
        number_result(Operation::Eql, a as int, GValue { kind: ValueKind::Number, value: b })
            == (ValueKind::Boolean, if a == b { 1int } else { 0int }),
        number_result(Operation::Not, a as int, no_operand())
            == (ValueKind::Boolean, if a == 0 { 1int } else { 0int }),
        i32::MIN <= a + b <= i32::MAX ==> number_result(Operation::Add, a as int,
            GValue { kind: ValueKind::Number, value: b }) == (ValueKind::Number, a + b),
        i32::MIN <= a - b <= i32::MAX ==> number_result(Operation::Sub, a as int,
            GValue { kind: ValueKind::Number, value: b }) == (ValueKind::Number, a - b),
        i32::MIN <= a * b <= i32::MAX ==> number_result(Operation::Mult, a as int,
            GValue { kind: ValueKind::Number, value: b }) == (ValueKind::Number, a * b),
{
    let r = 0x1_0000_0000int;
    if i32::MIN <= a + b <= i32::MAX {
        lemma_wrap_sum(a + b);
    }
    if i32::MIN <= a - b <= i32::MAX {
        lemma_wrap_sum(a - b);
    }
    if i32::MIN <= a * b <= i32::MAX {
        let x = a * b;
        if x >= 0 {
            assert(x % r == x) by (nonlinear_arith) requires 0 <= x < r, r == 0x1_0000_0000int;
        } else {
            assert(x % r == x + r) by (nonlinear_arith) requires -r <= x < 0, r == 0x1_0000_0000int;
        }
    }
}

/// Division by a non-zero number rounds towards zero: the remainder is smaller than
/// the divisor and has the sign of the dividend.
pub proof fn lemma_division_rounds_towards_zero(a: i32, b: i32)
    requires
        b != 0,
    ensures
        abs(number_result(Operation::Mod, a as int, GValue { kind: ValueKind::Number, value: b }).1) < abs(b as int),
        a >= 0 ==> number_result(Operation::Mod, a as int, GValue { kind: ValueKind::Number, value: b }).1 >= 0,
        a < 0 ==> number_result(Operation::Mod, a as int, GValue { kind: ValueKind::Number, value: b }).1 <= 0,
{
    let ua = abs(a as int);
    let ub = abs(b as int);
    assert(0 <= ua % ub < ub) by (nonlinear_arith) requires ub >= 1;
}

/// `a < b` on numbers is `b > a`.
pub proof fn lemma_less_is_mirrored_greater(a: i32, b: i32)
    ensures
        number_result(Operation::Lt, a as int, GValue { kind: ValueKind::Number, value: b })
            == number_result(Operation::Gt, b as int, GValue { kind: ValueKind::Number, value: a }),
{
}

/// `==` on numbers is symmetric.
pub proof fn lemma_equality_symmetric(a: i32, b: i32)
    ensures
        number_result(Operation::Eql, a as int, GValue { kind: ValueKind::Number, value: b })
            == number_result(Operation::Eql, b as int, GValue { kind: ValueKind::Number, value: a }),
{
}

/// Quotient and remainder rebuild the dividend: `(a / b) * b + a % b == a`.
pub proof fn lemma_quotient_remainder(a: i32, b: i32)
    requires
        b != 0,
    ensures
        number_result(Operation::Div, a as int, GValue { kind: ValueKind::Number, value: b }).1 * (b as int)
            + number_result(Operation::Mod, a as int, GValue { kind: ValueKind::Number, value: b }).1 == a as int,
{
    let x = a as int;
    let y = b as int;
    let ux = abs(x);
    let uy = abs(y);
    assert(ux == (ux / uy) * uy + ux % uy) by (nonlinear_arith)
        requires
            uy >= 1,
    ;
    if (x < 0) == (y < 0) {
        if x < 0 {
            assert((ux / uy) * y == -((ux / uy) * uy)) by (nonlinear_arith)
                requires
                    y == -uy,
            ;
        } else {
            assert((ux / uy) * y == (ux / uy) * uy) by (nonlinear_arith)
                requires
                    y == uy,
            ;
        }
    } else {
        if x < 0 {
            assert(-(ux / uy) * y == -((ux / uy) * uy)) by (nonlinear_arith)
                requires
                    y == uy,
            ;
        } else {
            assert(-(ux / uy) * y == (ux / uy) * uy) by (nonlinear_arith)
                requires
                    y == -uy,
            ;
        }
    }
}

} // verus!
