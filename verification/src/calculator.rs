//! The command-line calculator: one addition or multiplication of two small
//! signed integers, printed as an equation.

use vstd::prelude::*;
use crate::text::{push_char, push_signed_decimal, push_str, signed_decimal};

verus! {

/// The operation to apply.
#[derive(Clone, Copy, Debug, PartialEq, Eq, Structural)]
pub enum Operation {
    Add,
    Mul,
}

/// The exact value of the operation on two integers.
pub open spec fn apply(op: Operation, a: int, b: int) -> int {
    match op {
        Operation::Add => a + b,
        Operation::Mul => a * b,
    }
}

/// The symbol of the operation.
pub open spec fn spec_symbol(op: Operation) -> char {
    match op {
        Operation::Add => '+',
        Operation::Mul => '*',
    }
}

/// Applies the operation; the result must fit in an `i8`.
pub fn calculate(a: i8, b: i8, op: Operation) -> (r: (i8, char))
    requires
        i8::MIN <= apply(op, a as int, b as int) <= i8::MAX,
    ensures
        r.0 == apply(op, a as int, b as int),
        r.1 == spec_symbol(op),
{
    match op {
        Operation::Add => (a + b, '+'),
        Operation::Mul => (a * b, '*'),
    }
}

/// The equation that the calculator prints, such as `2 * -3 = -6`.
pub fn calculation_line(a: i8, b: i8, op: Operation) -> (r: String)
    requires
        i8::MIN <= apply(op, a as int, b as int) <= i8::MAX,
    ensures
        r@ == signed_decimal(a as int) + seq![' ', spec_symbol(op), ' '] + signed_decimal(b as int) + " = "@
            + signed_decimal(apply(op, a as int, b as int)),
{
    let (result, symbol) = calculate(a, b, op);
    let mut s = String::new();
    push_signed_decimal(&mut s, a as i64);
    push_char(&mut s, ' ');
    push_char(&mut s, symbol);
    push_char(&mut s, ' ');
    push_signed_decimal(&mut s, b as i64);
    push_str(&mut s, " = ");
    push_signed_decimal(&mut s, result as i64);
    assert(s@ =~= signed_decimal(a as int) + seq![' ', spec_symbol(op), ' '] + signed_decimal(b as int) + " = "@
        + signed_decimal(apply(op, a as int, b as int)));
    s
}

} // verus!
