//! The tasks that the WebSocket endpoints of the task service start: where
//! each begins, the data it starts with, and how it is described.

use vstd::prelude::*;
use crate::logical_time::{LogicalTimeAbsoluteMs, LogicalTimeDeltaMs};
use crate::tasks::{
    MaroonTaskState, MaroonTaskRuntime, RuntimeModel, MaroonTaskRuntimeDelayedMessage, MaroonTaskRuntimeDivisors,
    MaroonTaskRuntimeFibonacci, MaroonTaskRuntimeFactorial,
};
use crate::text::{decimal, push_decimal, push_str, signed_decimal, signed_decimal_string};

verus! {

/// A task as an endpoint asks for it.
pub struct TaskRequest {
    /// The state the task begins in.
    pub state: MaroonTaskState,
    /// The data it begins with.
    pub runtime: MaroonTaskRuntime,
    /// How it is described in the list of active tasks.
    pub description: String,
}

/// A task that writes `message` after `delay_ms` milliseconds.
pub fn delayed_message_request(delay_ms: u64, message: String) -> (r: TaskRequest)
    ensures
        r.state == MaroonTaskState::DelayedMessageTaskBegin,
        r.runtime@ == (RuntimeModel::DelayedMessage { delay: delay_ms, message: message@ }),
        r.description@ == "Delayed by "@ + decimal(delay_ms as nat) + "ms: `"@ + message@ + "`."@,
{
    let mut d = String::from_str("Delayed by ");
    push_decimal(&mut d, delay_ms);
    push_str(&mut d, "ms: `");
    push_str(&mut d, message.as_str());
    push_str(&mut d, "`.");
    let runtime = MaroonTaskRuntime::DelayedMessage(MaroonTaskRuntimeDelayedMessage {
        delay: LogicalTimeAbsoluteMs::from_millis(delay_ms),
        message,
    });
    TaskRequest { state: MaroonTaskState::DelayedMessageTaskBegin, runtime, description: d }
}

/// A task that writes the divisors of `n`, largest first.
pub fn divisors_request(n: u64) -> (r: TaskRequest)
    ensures
        r.state == MaroonTaskState::DivisorsTaskBegin,
        r.runtime@ == (RuntimeModel::Divisors { n: n, i: n }),
        r.description@ == "Divisors of "@ + decimal(n as nat),
{
    let mut d = String::from_str("Divisors of ");
    push_decimal(&mut d, n);
    TaskRequest {
        state: MaroonTaskState::DivisorsTaskBegin,
        runtime: MaroonTaskRuntime::Divisors(MaroonTaskRuntimeDivisors { n, i: n }),
        description: d,
    }
}

/// A task that computes the `n`-th Fibonacci number step by step.
pub fn fibonacci_request(n: u64) -> (r: TaskRequest)
    ensures
        r.state == MaroonTaskState::FibonacciTaskBegin,
        r.runtime@ == (RuntimeModel::Fibonacci { n: n, index: 0, a: 0, b: 0, delay_ms: 0 }),
        r.description@ == "Fibonacci number "@ + decimal(n as nat),
{
    let mut d = String::from_str("Fibonacci number ");
    push_decimal(&mut d, n);
    TaskRequest {
        state: MaroonTaskState::FibonacciTaskBegin,
        runtime: MaroonTaskRuntime::Fibonacci(MaroonTaskRuntimeFibonacci {
            n,
            index: 0,
            a: 0,
            b: 0,
            delay_ms: LogicalTimeDeltaMs::from_millis(0),
        }),
        description: d,
    }
}

/// A task that computes `n!` by recursion, writing as it goes.
pub fn factorial_request(n: u64) -> (r: TaskRequest)
    ensures
        r.state == MaroonTaskState::FactorialBegin,
        r.runtime@ == (RuntimeModel::Factorial { n: n, result: 0, next_multiplier: 0 }),
        r.description@ == "Factorial of "@ + decimal(n as nat),
{
    let mut d = String::from_str("Factorial of ");
    push_decimal(&mut d, n);
    TaskRequest {
        state: MaroonTaskState::FactorialBegin,
        runtime: MaroonTaskRuntime::Factorial(MaroonTaskRuntimeFactorial { n, result: 0, next_multiplier: 0 }),
        description: d,
    }
}

/// The answer of the addition endpoint: the sum in decimal.
pub fn sum_text(a: i32, b: i32) -> (r: String)
    requires
        i32::MIN <= a + b <= i32::MAX,
    ensures
        r@ == signed_decimal(a + b),
{
    let s: i32 = a + b;
    signed_decimal_string(s as i64)
}

/// The task that stands for the graph task `name` in layer `layer` of a
/// layered run: a message from the task, delayed by a tenth of a second
/// per layer up to and including its own.
pub fn layer_task_request(name: &str, layer: u64) -> (r: TaskRequest)
    requires
        100 * (layer + 1) <= u64::MAX,
    ensures
        r.state == MaroonTaskState::DelayedMessageTaskBegin,
        r.runtime@ == (RuntimeModel::DelayedMessage {
            delay: (100 * (layer + 1)) as u64,
            message: "Hello from task `"@ + name@ + "`"@,
        }),
        r.description@ == "Task `"@ + name@ + "` (layer "@ + decimal(layer as nat) + ")"@,
{
    let mut message = String::from_str("Hello from task `");
    push_str(&mut message, name);
    push_str(&mut message, "`");
    let mut d = String::from_str("Task `");
    push_str(&mut d, name);
    push_str(&mut d, "` (layer ");
    push_decimal(&mut d, layer);
    push_str(&mut d, ")");
    let delay: u64 = 100 * (layer + 1);
    TaskRequest {
        state: MaroonTaskState::DelayedMessageTaskBegin,
        runtime: MaroonTaskRuntime::DelayedMessage(MaroonTaskRuntimeDelayedMessage {
            delay: LogicalTimeAbsoluteMs::from_millis(delay),
            message,
        }),
        description: d,
    }
}

} // verus!
