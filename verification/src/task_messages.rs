//! The texts that tasks write: one full wording for people and one terse
//! wording that keeps transcripts short.

use vstd::prelude::*;
use crate::text::{decimal, push_decimal, push_str};

verus! {

/// Which wording the tasks use for their messages.
#[derive(Clone, Copy, Debug, PartialEq, Eq, Structural)]
pub enum MessageStyle {
    /// `A divisor of 12 is 6.`
    Full,
    /// `12%6==0`
    Terse,
}

pub open spec fn dec(n: u64) -> Seq<char> {
    decimal(n as nat)
}

pub open spec fn spec_format_delayed_message(style: MessageStyle, sleep_ms: u64, message: Seq<char>) -> Seq<char> {
    match style {
        MessageStyle::Full => "Delayed by "@ + dec(sleep_ms) + "ms: `"@ + message + "`."@,
        MessageStyle::Terse => message,
    }
}

pub open spec fn spec_format_divisor_found(style: MessageStyle, n: u64, i: u64) -> Seq<char> {
    match style {
        MessageStyle::Full => "A divisor of "@ + dec(n) + " is "@ + dec(i) + "."@,
        MessageStyle::Terse => dec(n) + "%"@ + dec(i) + "==0"@,
    }
}

pub open spec fn spec_format_divisors_done(style: MessageStyle, n: u64) -> Seq<char> {
    match style {
        MessageStyle::Full => "Done for "@ + dec(n) + "!"@,
        MessageStyle::Terse => dec(n) + "!"@,
    }
}

pub open spec fn spec_format_fibonacci_step(style: MessageStyle, n: u64, index: u64, a: u64) -> Seq<char> {
    match style {
        MessageStyle::Full => "Fibonacci("@ + dec(n) + ") for "@ + dec(index) + " : "@ + dec(a) + "."@,
        MessageStyle::Terse => "fib"@ + dec(index) + "["@ + dec(n) + "]="@ + dec(a),
    }
}

pub open spec fn spec_format_fibonacci_result(style: MessageStyle, n: u64, result: u64) -> Seq<char> {
    match style {
        MessageStyle::Full => "Fibonacci["@ + dec(n) + "] = "@ + dec(result),
        MessageStyle::Terse => "fib"@ + dec(n) + "="@ + dec(result),
    }
}

pub open spec fn spec_format_intermediate_factorial_result(style: MessageStyle, n: u64, result: u64) -> Seq<char> {
    match style {
        MessageStyle::Full => "IntermediateFactorial("@ + dec(n) + ") = "@ + dec(result) + "."@,
        MessageStyle::Terse => dec(n) + "!:"@ + dec(result),
    }
}

pub open spec fn spec_format_factorial_result(style: MessageStyle, n: u64, result: u64) -> Seq<char> {
    match style {
        MessageStyle::Full => "Factorial("@ + dec(n) + ") = "@ + dec(result) + "."@,
        MessageStyle::Terse => dec(n) + "!="@ + dec(result),
    }
}

pub fn format_delayed_message(style: MessageStyle, sleep_ms: u64, message: &str) -> (r: String)
    ensures
        r@ == spec_format_delayed_message(style, sleep_ms, message@),
{
    let mut s = String::new();
    match style {
        MessageStyle::Full => {
            push_str(&mut s, "Delayed by ");
            push_decimal(&mut s, sleep_ms);
            push_str(&mut s, "ms: `");
            push_str(&mut s, message);
            push_str(&mut s, "`.");
        },
        MessageStyle::Terse => {
            push_str(&mut s, message);
        },
    }
    assert(s@ =~= spec_format_delayed_message(style, sleep_ms, message@));
    s
}

pub fn format_divisor_found(style: MessageStyle, n: u64, i: u64) -> (r: String)
    ensures
        r@ == spec_format_divisor_found(style, n, i),
{
    let mut s = String::new();
    match style {
        MessageStyle::Full => {
            push_str(&mut s, "A divisor of ");
            push_decimal(&mut s, n);
            push_str(&mut s, " is ");
            push_decimal(&mut s, i);
            push_str(&mut s, ".");
        },
        MessageStyle::Terse => {
            push_decimal(&mut s, n);
            push_str(&mut s, "%");
            push_decimal(&mut s, i);
            push_str(&mut s, "==0");
        },
    }
    assert(s@ =~= spec_format_divisor_found(style, n, i));
    s
}

pub fn format_divisors_done(style: MessageStyle, n: u64) -> (r: String)
    ensures
        r@ == spec_format_divisors_done(style, n),
{
    let mut s = String::new();
    match style {
        MessageStyle::Full => {
            push_str(&mut s, "Done for ");
            push_decimal(&mut s, n);
            push_str(&mut s, "!");
        },
        MessageStyle::Terse => {
            push_decimal(&mut s, n);
            push_str(&mut s, "!");
        },
    }
    assert(s@ =~= spec_format_divisors_done(style, n));
    s
}

/// The message of one Fibonacci step. It is handed both running values;
/// no wording shows the second one.
pub fn format_fibonacci_step(style: MessageStyle, n: u64, index: u64, a: u64, _b: u64) -> (r: String)
    ensures
        r@ == spec_format_fibonacci_step(style, n, index, a),
{
    let mut s = String::new();
    match style {
        MessageStyle::Full => {
            push_str(&mut s, "Fibonacci(");
            push_decimal(&mut s, n);
            push_str(&mut s, ") for ");
            push_decimal(&mut s, index);
            push_str(&mut s, " : ");
            push_decimal(&mut s, a);
            push_str(&mut s, ".");
        },
        MessageStyle::Terse => {
            push_str(&mut s, "fib");
            push_decimal(&mut s, index);
            push_str(&mut s, "[");
            push_decimal(&mut s, n);
            push_str(&mut s, "]=");
            push_decimal(&mut s, a);
        },
    }
    assert(s@ =~= spec_format_fibonacci_step(style, n, index, a));
    s
}

pub fn format_fibonacci_result(style: MessageStyle, n: u64, result: u64) -> (r: String)
    ensures
        r@ == spec_format_fibonacci_result(style, n, result),
{
    let mut s = String::new();
    match style {
        MessageStyle::Full => {
            push_str(&mut s, "Fibonacci[");
            push_decimal(&mut s, n);
            push_str(&mut s, "] = ");
            push_decimal(&mut s, result);
        },
        MessageStyle::Terse => {
            push_str(&mut s, "fib");
            push_decimal(&mut s, n);
            push_str(&mut s, "=");
            push_decimal(&mut s, result);
        },
    }
    assert(s@ =~= spec_format_fibonacci_result(style, n, result));
    s
}

pub fn format_intermediate_factorial_result(style: MessageStyle, n: u64, result: u64) -> (r: String)
    ensures
        r@ == spec_format_intermediate_factorial_result(style, n, result),
{
    let mut s = String::new();
    match style {
        MessageStyle::Full => {
            push_str(&mut s, "IntermediateFactorial(");
            push_decimal(&mut s, n);
            push_str(&mut s, ") = ");
            push_decimal(&mut s, result);
            push_str(&mut s, ".");
        },
        MessageStyle::Terse => {
            push_decimal(&mut s, n);
            push_str(&mut s, "!:");
            push_decimal(&mut s, result);
        },
    }
    assert(s@ =~= spec_format_intermediate_factorial_result(style, n, result));
    s
}

pub fn format_factorial_result(style: MessageStyle, n: u64, result: u64) -> (r: String)
    ensures
        r@ == spec_format_factorial_result(style, n, result),
{
    let mut s = String::new();
    match style {
        MessageStyle::Full => {
            push_str(&mut s, "Factorial(");
            push_decimal(&mut s, n);
            push_str(&mut s, ") = ");
            push_decimal(&mut s, result);
            push_str(&mut s, ".");
        },
        MessageStyle::Terse => {
            push_decimal(&mut s, n);
            push_str(&mut s, "!=");
            push_decimal(&mut s, result);
        },
    }
    assert(s@ =~= spec_format_factorial_result(style, n, result));
    s
}

} // verus!
