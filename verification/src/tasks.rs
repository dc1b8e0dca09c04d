//! The timed task state machine: task states, per-task data, and the single
//! transition function `global_step`.

use vstd::prelude::*;
use crate::logical_time::{LogicalTimeAbsoluteMs, LogicalTimeDeltaMs};
use crate::task_messages::{
    MessageStyle, spec_format_delayed_message, spec_format_divisor_found, spec_format_divisors_done,
    spec_format_fibonacci_step, spec_format_fibonacci_result, spec_format_intermediate_factorial_result,
    spec_format_factorial_result, format_delayed_message, format_divisor_found, format_divisors_done,
    format_fibonacci_step, format_fibonacci_result, format_intermediate_factorial_result,
    format_factorial_result,
};

verus! {

/// A position in one of the task programs.
#[derive(Clone, Copy, Debug, PartialEq, Eq, Structural)]
pub enum MaroonTaskState {
    Completed,
    DelayedMessageTaskBegin,
    DelayedMessageTaskExecute,
    DivisorsTaskBegin,
    DivisorsTaskIteration,
    DivisorsPrintAndMoveOn,
    FibonacciTaskBegin,
    FibonacciTaskCalculate,
    FibonacciTaskResult,
    FibonacciTaskStep,
    FactorialBegin,
    FactorialRecursion,
    FactorialRecursionPostWrite,
    FactorialRecursionPostSleep,
    FactorialReturn,
}

/// The name of a state, as it is shown in the list of active tasks.
pub open spec fn state_name(s: MaroonTaskState) -> Seq<char> {
    match s {
        MaroonTaskState::Completed => "Completed"@,
        MaroonTaskState::DelayedMessageTaskBegin => "DelayedMessageTaskBegin"@,
        MaroonTaskState::DelayedMessageTaskExecute => "DelayedMessageTaskExecute"@,
        MaroonTaskState::DivisorsTaskBegin => "DivisorsTaskBegin"@,
        MaroonTaskState::DivisorsTaskIteration => "DivisorsTaskIteration"@,
        MaroonTaskState::DivisorsPrintAndMoveOn => "DivisorsPrintAndMoveOn"@,
        MaroonTaskState::FibonacciTaskBegin => "FibonacciTaskBegin"@,
        MaroonTaskState::FibonacciTaskCalculate => "FibonacciTaskCalculate"@,
        MaroonTaskState::FibonacciTaskResult => "FibonacciTaskResult"@,
        MaroonTaskState::FibonacciTaskStep => "FibonacciTaskStep"@,
        MaroonTaskState::FactorialBegin => "FactorialBegin"@,
        MaroonTaskState::FactorialRecursion => "FactorialRecursion"@,
        MaroonTaskState::FactorialRecursionPostWrite => "FactorialRecursionPostWrite"@,
        MaroonTaskState::FactorialRecursionPostSleep => "FactorialRecursionPostSleep"@,
        MaroonTaskState::FactorialReturn => "FactorialReturn"@,
    }
}

/// The name of a state, as it is shown in the list of active tasks.
pub fn state_name_str(s: MaroonTaskState) -> (r: &'static str)
    ensures
        r@ == state_name(s),
{
    match s {
        MaroonTaskState::Completed => "Completed",
        MaroonTaskState::DelayedMessageTaskBegin => "DelayedMessageTaskBegin",
        MaroonTaskState::DelayedMessageTaskExecute => "DelayedMessageTaskExecute",
        MaroonTaskState::DivisorsTaskBegin => "DivisorsTaskBegin",
        MaroonTaskState::DivisorsTaskIteration => "DivisorsTaskIteration",
        MaroonTaskState::DivisorsPrintAndMoveOn => "DivisorsPrintAndMoveOn",
        MaroonTaskState::FibonacciTaskBegin => "FibonacciTaskBegin",
        MaroonTaskState::FibonacciTaskCalculate => "FibonacciTaskCalculate",
        MaroonTaskState::FibonacciTaskResult => "FibonacciTaskResult",
        MaroonTaskState::FibonacciTaskStep => "FibonacciTaskStep",
        MaroonTaskState::FactorialBegin => "FactorialBegin",
        MaroonTaskState::FactorialRecursion => "FactorialRecursion",
        MaroonTaskState::FactorialRecursionPostWrite => "FactorialRecursionPostWrite",
        MaroonTaskState::FactorialRecursionPostSleep => "FactorialRecursionPostSleep",
        MaroonTaskState::FactorialReturn => "FactorialReturn",
    }
}

#[derive(Debug)]
pub struct MaroonTaskRuntimeDelayedMessage {
    pub delay: LogicalTimeAbsoluteMs,
    pub message: String,
}

#[derive(Clone, Copy, Debug)]
pub struct MaroonTaskRuntimeDivisors {
    pub n: u64,
    pub i: u64,
}

#[derive(Clone, Copy, Debug)]
pub struct MaroonTaskRuntimeFibonacci {
    pub n: u64,
    pub index: u64,
    pub a: u64,
    pub b: u64,
    pub delay_ms: LogicalTimeDeltaMs,
}

#[derive(Clone, Copy, Debug)]
pub struct MaroonTaskRuntimeFactorial {
    pub n: u64,
    pub result: u64,
    pub next_multiplier: u64,
}

/// The data a task carries from step to step.
#[derive(Debug)]
pub enum MaroonTaskRuntime {
    DelayedMessage(MaroonTaskRuntimeDelayedMessage),
    Divisors(MaroonTaskRuntimeDivisors),
    Fibonacci(MaroonTaskRuntimeFibonacci),
    Factorial(MaroonTaskRuntimeFactorial),
}

/// The mathematical content of a task's data.
pub enum RuntimeModel {
    DelayedMessage { delay: u64, message: Seq<char> },
    Divisors { n: u64, i: u64 },
    Fibonacci { n: u64, index: u64, a: u64, b: u64, delay_ms: u64 },
    Factorial { n: u64, result: u64, next_multiplier: u64 },
}

impl View for MaroonTaskRuntime {
    type V = RuntimeModel;

    open spec fn view(&self) -> RuntimeModel {
        match self {
            MaroonTaskRuntime::DelayedMessage(d) => RuntimeModel::DelayedMessage {
                delay: d.delay.0,
                message: d.message@,
            },
            MaroonTaskRuntime::Divisors(d) => RuntimeModel::Divisors { n: d.n, i: d.i },
            MaroonTaskRuntime::Fibonacci(d) => RuntimeModel::Fibonacci {
                n: d.n,
                index: d.index,
                a: d.a,
                b: d.b,
                delay_ms: d.delay_ms.0,
            },
            MaroonTaskRuntime::Factorial(d) => RuntimeModel::Factorial {
                n: d.n,
                result: d.result,
                next_multiplier: d.next_multiplier,
            },
        }
    }
}

/// The value handed to a task step: nothing, or the argument of a call or
/// the value of a return.
#[derive(Clone, Copy, Debug, PartialEq, Eq, Structural)]
pub enum MaroonContextValue {
    NoValue,
    U64(u64),
}

/// What the scheduler is to do after a step.
#[derive(Debug)]
pub enum MaroonStepResult {
    /// The task is finished.
    Done,
    /// Continue at the given state at the same instant.
    Next(MaroonTaskState),
    /// Continue at the given state after the given delay.
    Sleep(LogicalTimeDeltaMs, MaroonTaskState),
    /// Write the text, then continue at the given state at the same instant.
    Write(String, MaroonTaskState),
    /// Enter the first state with the argument; come back to the second one.
    CallU64(MaroonTaskState, u64, MaroonTaskState),
    /// Return the value to the state saved by the caller.
    ReturnU64(u64),
}

/// The mathematical content of a step's result.
pub enum StepModel {
    Done,
    Next(MaroonTaskState),
    Sleep(u64, MaroonTaskState),
    Write(Seq<char>, MaroonTaskState),
    CallU64(MaroonTaskState, u64, MaroonTaskState),
    ReturnU64(u64),
}

impl View for MaroonStepResult {
    type V = StepModel;

    open spec fn view(&self) -> StepModel {
        match self {
            MaroonStepResult::Done => StepModel::Done,
            MaroonStepResult::Next(s) => StepModel::Next(*s),
            MaroonStepResult::Sleep(d, s) => StepModel::Sleep(d.0, *s),
            MaroonStepResult::Write(t, s) => StepModel::Write(t@, *s),
            MaroonStepResult::CallU64(c, v, r) => StepModel::CallU64(*c, *v, *r),
            MaroonStepResult::ReturnU64(v) => StepModel::ReturnU64(*v),
        }
    }
}

/// The largest `d` with `1 <= d <= i` that divides `n`, or `0` if there is none.
pub open spec fn largest_divisor_at_most(n: u64, i: nat) -> nat
    decreases i,
{
    if i == 0 {
        0
    } else if n as nat % i == 0 {
        i
    } else {
        largest_divisor_at_most(n, (i - 1) as nat)
    }
}

/// The step of `state` is defined on this data and context: the data is of
/// the kind the state belongs to, a call or return value is there where the
/// state reads one, and no arithmetic of the step leaves the 64-bit range.
pub open spec fn step_defined(state: MaroonTaskState, rt: RuntimeModel, ctx: MaroonContextValue) -> bool {
    match state {
        MaroonTaskState::Completed => true,
        MaroonTaskState::DelayedMessageTaskBegin | MaroonTaskState::DelayedMessageTaskExecute =>
            rt is DelayedMessage,
        MaroonTaskState::DivisorsTaskBegin => rt is Divisors,
        MaroonTaskState::DivisorsTaskIteration => match rt {
            RuntimeModel::Divisors { n, i } => largest_divisor_at_most(n, i as nat) * 10 <= u64::MAX,
            _ => false,
        },
        MaroonTaskState::DivisorsPrintAndMoveOn => match rt {
            RuntimeModel::Divisors { n, i } => i >= 1,
            _ => false,
        },
        MaroonTaskState::FibonacciTaskBegin | MaroonTaskState::FibonacciTaskResult => rt is Fibonacci,
        MaroonTaskState::FibonacciTaskCalculate => match rt {
            RuntimeModel::Fibonacci { n, index, .. } => index < n ==> 5 * index <= u64::MAX,
            _ => false,
        },
        MaroonTaskState::FibonacciTaskStep => match rt {
            RuntimeModel::Fibonacci { index, a, b, .. } => index + 1 <= u64::MAX && a + b <= u64::MAX,
            _ => false,
        },
        MaroonTaskState::FactorialBegin | MaroonTaskState::FactorialRecursionPostSleep => rt is Factorial,
        MaroonTaskState::FactorialRecursion => match (rt, ctx) {
            (RuntimeModel::Factorial { result, .. }, MaroonContextValue::U64(v)) =>
                v >= 1 && result * v <= u64::MAX,
            _ => false,
        },
        MaroonTaskState::FactorialRecursionPostWrite => match rt {
            RuntimeModel::Factorial { next_multiplier, .. } => next_multiplier * 50 <= u64::MAX,
            _ => false,
        },
        MaroonTaskState::FactorialReturn => rt is Factorial && ctx is U64,
    }
}

/// The transition table of the task programs: the data after the step and
/// what the scheduler is to do next.
pub open spec fn spec_global_step(
    state: MaroonTaskState,
    rt: RuntimeModel,
    ctx: MaroonContextValue,
    style: MessageStyle,
) -> (RuntimeModel, StepModel) {
    match (state, rt) {
        (MaroonTaskState::DelayedMessageTaskBegin, RuntimeModel::DelayedMessage { delay, message }) =>
            (rt, StepModel::Sleep(delay, MaroonTaskState::DelayedMessageTaskExecute)),
        (MaroonTaskState::DelayedMessageTaskExecute, RuntimeModel::DelayedMessage { delay, message }) =>
            (rt, StepModel::Write(spec_format_delayed_message(style, delay, message), MaroonTaskState::Completed)),
        (MaroonTaskState::DivisorsTaskBegin, RuntimeModel::Divisors { n, i }) =>
            (RuntimeModel::Divisors { n, i: n }, StepModel::Next(MaroonTaskState::DivisorsTaskIteration)),
        (MaroonTaskState::DivisorsTaskIteration, RuntimeModel::Divisors { n, i }) => {
            let d = largest_divisor_at_most(n, i as nat);
            if d == 0 {
                (rt, StepModel::Write(spec_format_divisors_done(style, n), MaroonTaskState::Completed))
            } else {
                (
                    RuntimeModel::Divisors { n, i: d as u64 },
                    StepModel::Sleep((d * 10) as u64, MaroonTaskState::DivisorsPrintAndMoveOn),
                )
            }
        },
        (MaroonTaskState::DivisorsPrintAndMoveOn, RuntimeModel::Divisors { n, i }) => (
            RuntimeModel::Divisors { n, i: (i - 1) as u64 },
            StepModel::Write(spec_format_divisor_found(style, n, i), MaroonTaskState::DivisorsTaskIteration),
        ),
        (MaroonTaskState::FibonacciTaskBegin, RuntimeModel::Fibonacci { n, index, a, b, delay_ms }) =>
            if n <= 1 {
                (rt, StepModel::Write(spec_format_fibonacci_result(style, n, n), MaroonTaskState::Completed))
            } else {
                (
                    RuntimeModel::Fibonacci { n, index: 1, a: 0, b: 1, delay_ms },
                    StepModel::Next(MaroonTaskState::FibonacciTaskCalculate),
                )
            },
        (MaroonTaskState::FibonacciTaskCalculate, RuntimeModel::Fibonacci { n, index, a, b, delay_ms }) =>
            if index >= n {
                (rt, StepModel::Next(MaroonTaskState::FibonacciTaskResult))
            } else {
                (
                    RuntimeModel::Fibonacci { n, index, a, b, delay_ms: (5 * index) as u64 },
                    StepModel::Write(spec_format_fibonacci_step(style, n, index, b), MaroonTaskState::FibonacciTaskStep),
                )
            },
        (MaroonTaskState::FibonacciTaskStep, RuntimeModel::Fibonacci { n, index, a, b, delay_ms }) => (
            RuntimeModel::Fibonacci { n, index: (index + 1) as u64, a: b, b: (a + b) as u64, delay_ms },
            StepModel::Sleep(delay_ms, MaroonTaskState::FibonacciTaskCalculate),
        ),
        (MaroonTaskState::FibonacciTaskResult, RuntimeModel::Fibonacci { n, b, .. }) =>
            (rt, StepModel::Write(spec_format_fibonacci_result(style, n, b), MaroonTaskState::Completed)),
        (MaroonTaskState::FactorialBegin, RuntimeModel::Factorial { n, .. }) => (
            RuntimeModel::Factorial { n, result: 1, next_multiplier: n },
            StepModel::CallU64(MaroonTaskState::FactorialRecursion, n, MaroonTaskState::FactorialReturn),
        ),
        (MaroonTaskState::FactorialRecursion, RuntimeModel::Factorial { n, result, .. }) => {
            let v = ctx->U64_0;
            let new_result = (result * v) as u64;
            let next = (v - 1) as u64;
            (
                RuntimeModel::Factorial { n, result: new_result, next_multiplier: next },
                StepModel::Write(
                    spec_format_intermediate_factorial_result(style, next, new_result),
                    MaroonTaskState::FactorialRecursionPostWrite,
                ),
            )
        },
        (MaroonTaskState::FactorialRecursionPostWrite, RuntimeModel::Factorial { next_multiplier, .. }) =>
            (rt, StepModel::Sleep((next_multiplier * 50) as u64, MaroonTaskState::FactorialRecursionPostSleep)),
        (MaroonTaskState::FactorialRecursionPostSleep, RuntimeModel::Factorial { next_multiplier, .. }) =>
            (rt, StepModel::ReturnU64(next_multiplier)),
        (MaroonTaskState::FactorialReturn, RuntimeModel::Factorial { n, result, next_multiplier }) =>
            if ctx->U64_0 > 1 {
                (
                    rt,
                    StepModel::CallU64(
                        MaroonTaskState::FactorialRecursion,
                        next_multiplier,
                        MaroonTaskState::FactorialReturn,
                    ),
                )
            } else {
                (rt, StepModel::Write(spec_format_factorial_result(style, n, result), MaroonTaskState::Completed))
            },
        (_, _) => (rt, StepModel::Done),
    }
}


impl MaroonTaskRuntime {
    /// A copy of the task data.
    pub fn duplicate(&self) -> (r: MaroonTaskRuntime)
        ensures
            r@ == self@,
    {
        match self {
            MaroonTaskRuntime::DelayedMessage(d) => MaroonTaskRuntime::DelayedMessage(
                MaroonTaskRuntimeDelayedMessage { delay: d.delay, message: d.message.clone() },
            ),
            MaroonTaskRuntime::Divisors(d) => MaroonTaskRuntime::Divisors(*d),
            MaroonTaskRuntime::Fibonacci(d) => MaroonTaskRuntime::Fibonacci(*d),
            MaroonTaskRuntime::Factorial(d) => MaroonTaskRuntime::Factorial(*d),
        }
    }
}

proof fn lemma_product_fits(x: nat, v: nat, m: nat)
    requires
        v >= 1,
    ensures
        (x <= m / v) <==> (x * v <= m),
{
    assert((x <= m / v) ==> (x * v <= m)) by (nonlinear_arith)
        requires v >= 1;
    assert((x * v <= m) ==> (x <= m / v)) by (nonlinear_arith)
        requires v >= 1;
}

/// The largest divisor of `n` that is at most `i`, or `0` if there is none.
fn find_largest_divisor_at_most(n: u64, i: u64) -> (d: u64)
    ensures
        d == largest_divisor_at_most(n, i as nat),
{
    let mut d = i;
    while d > 0 && n % d != 0
        invariant
            largest_divisor_at_most(n, d as nat) == largest_divisor_at_most(n, i as nat),
        decreases d,
    {
        d = d - 1;
    }
    d
}

/// Whether the step of `state` is defined on this data and context.
pub fn step_is_defined(state: MaroonTaskState, runtime: &MaroonTaskRuntime, ctx: MaroonContextValue) -> (b: bool)
    ensures
        b == step_defined(state, runtime@, ctx),
{
    match state {
        MaroonTaskState::Completed => true,
        MaroonTaskState::DelayedMessageTaskBegin | MaroonTaskState::DelayedMessageTaskExecute =>
            matches!(runtime, MaroonTaskRuntime::DelayedMessage(_)),
        MaroonTaskState::DivisorsTaskBegin => matches!(runtime, MaroonTaskRuntime::Divisors(_)),
        MaroonTaskState::DivisorsTaskIteration => match runtime {
            MaroonTaskRuntime::Divisors(d) => {
                let found = find_largest_divisor_at_most(d.n, d.i);
                proof { lemma_product_fits(found as nat, 10, u64::MAX as nat); }
                found <= u64::MAX / 10
            },
            _ => false,
        },
        MaroonTaskState::DivisorsPrintAndMoveOn => match runtime {
            MaroonTaskRuntime::Divisors(d) => d.i >= 1,
            _ => false,
        },
        MaroonTaskState::FibonacciTaskBegin | MaroonTaskState::FibonacciTaskResult =>
            matches!(runtime, MaroonTaskRuntime::Fibonacci(_)),
        MaroonTaskState::FibonacciTaskCalculate => match runtime {
            MaroonTaskRuntime::Fibonacci(d) => {
                proof { lemma_product_fits(d.index as nat, 5, u64::MAX as nat); }
                d.index >= d.n || d.index <= u64::MAX / 5
            },
            _ => false,
        },
        MaroonTaskState::FibonacciTaskStep => match runtime {
            MaroonTaskRuntime::Fibonacci(d) => d.index < u64::MAX && d.a <= u64::MAX - d.b,
            _ => false,
        },
        MaroonTaskState::FactorialBegin | MaroonTaskState::FactorialRecursionPostSleep =>
            matches!(runtime, MaroonTaskRuntime::Factorial(_)),
        MaroonTaskState::FactorialRecursion => match (runtime, ctx) {
            (MaroonTaskRuntime::Factorial(d), MaroonContextValue::U64(v)) => {
                if v >= 1 {
                    proof { lemma_product_fits(d.result as nat, v as nat, u64::MAX as nat); }
                    d.result <= u64::MAX / v
                } else {
                    false
                }
            },
            _ => false,
        },
        MaroonTaskState::FactorialRecursionPostWrite => match runtime {
            MaroonTaskRuntime::Factorial(d) => {
                proof { lemma_product_fits(d.next_multiplier as nat, 50, u64::MAX as nat); }
                d.next_multiplier <= u64::MAX / 50
            },
            _ => false,
        },
        MaroonTaskState::FactorialReturn =>
            matches!(runtime, MaroonTaskRuntime::Factorial(_)) && matches!(ctx, MaroonContextValue::U64(_)),
    }
}

/// Runs one step of a task: reads and updates its data and says what the
/// scheduler is to do next.
pub fn global_step(
    state: MaroonTaskState,
    runtime: &mut MaroonTaskRuntime,
    ctx: MaroonContextValue,
    style: MessageStyle,
) -> (r: MaroonStepResult)
    requires
        step_defined(state, old(runtime)@, ctx),
    ensures
        (final(runtime)@, r@) == spec_global_step(state, old(runtime)@, ctx, style),
{
    match state {
        MaroonTaskState::DelayedMessageTaskBegin => {
            match runtime {
                MaroonTaskRuntime::DelayedMessage(data) => MaroonStepResult::Sleep(
                    LogicalTimeDeltaMs::from_millis(data.delay.as_millis()),
                    MaroonTaskState::DelayedMessageTaskExecute,
                ),
                _ => MaroonStepResult::Done,
            }
        },
        MaroonTaskState::DelayedMessageTaskExecute => {
            match runtime {
                MaroonTaskRuntime::DelayedMessage(data) => MaroonStepResult::Write(
                    format_delayed_message(style, data.delay.as_millis(), data.message.as_str()),
                    MaroonTaskState::Completed,
                ),
                _ => MaroonStepResult::Done,
            }
        },
        MaroonTaskState::DivisorsTaskBegin => {
            match runtime {
                MaroonTaskRuntime::Divisors(data) => {
                    data.i = data.n;
                    MaroonStepResult::Next(MaroonTaskState::DivisorsTaskIteration)
                },
                _ => MaroonStepResult::Done,
            }
        },
        MaroonTaskState::DivisorsTaskIteration => {
            match runtime {
                MaroonTaskRuntime::Divisors(data) => {
                    let n = data.n;
                    let mut i = data.i;
                    while i > 0 && n % i != 0
                        invariant
                            largest_divisor_at_most(n, i as nat) == largest_divisor_at_most(n, data.i as nat),
                        decreases i,
                    {
                        i = i - 1;
                    }
                    assert(i == largest_divisor_at_most(n, i as nat));
                    if i == 0 {
                        MaroonStepResult::Write(format_divisors_done(style, n), MaroonTaskState::Completed)
                    } else {
                        data.i = i;
                        MaroonStepResult::Sleep(
                            LogicalTimeDeltaMs::from_millis(i * 10),
                            MaroonTaskState::DivisorsPrintAndMoveOn,
                        )
                    }
                },
                _ => MaroonStepResult::Done,
            }
        },
        MaroonTaskState::DivisorsPrintAndMoveOn => {
            match runtime {
                MaroonTaskRuntime::Divisors(data) => {
                    let result = MaroonStepResult::Write(
                        format_divisor_found(style, data.n, data.i),
                        MaroonTaskState::DivisorsTaskIteration,
                    );
                    data.i = data.i - 1;
                    result
                },
                _ => MaroonStepResult::Done,
            }
        },
        MaroonTaskState::FibonacciTaskBegin => {
            match runtime {
                MaroonTaskRuntime::Fibonacci(data) => {
                    if data.n <= 1 {
                        MaroonStepResult::Write(
                            format_fibonacci_result(style, data.n, data.n),
                            MaroonTaskState::Completed,
                        )
                    } else {
                        data.index = 1;
                        data.a = 0;
                        data.b = 1;
                        MaroonStepResult::Next(MaroonTaskState::FibonacciTaskCalculate)
                    }
                },
                _ => MaroonStepResult::Done,
            }
        },
        MaroonTaskState::FibonacciTaskCalculate => {
            match runtime {
                MaroonTaskRuntime::Fibonacci(data) => {
                    if data.index >= data.n {
                        MaroonStepResult::Next(MaroonTaskState::FibonacciTaskResult)
                    } else {
                        let delay = 5 * data.index;
                        data.delay_ms = LogicalTimeDeltaMs::from_millis(delay);
                        MaroonStepResult::Write(
                            format_fibonacci_step(style, data.n, data.index, data.b, data.a),
                            MaroonTaskState::FibonacciTaskStep,
                        )
                    }
                },
                _ => MaroonStepResult::Done,
            }
        },
        MaroonTaskState::FibonacciTaskStep => {
            match runtime {
                MaroonTaskRuntime::Fibonacci(data) => {
                    let next_index = data.index + 1;
                    let next_a = data.b;
                    let next_b = data.a + data.b;
                    data.index = next_index;
                    data.a = next_a;
                    data.b = next_b;
                    MaroonStepResult::Sleep(data.delay_ms, MaroonTaskState::FibonacciTaskCalculate)
                },
                _ => MaroonStepResult::Done,
            }
        },
        MaroonTaskState::FibonacciTaskResult => {
            match runtime {
                MaroonTaskRuntime::Fibonacci(data) => MaroonStepResult::Write(
                    format_fibonacci_result(style, data.n, data.b),
                    MaroonTaskState::Completed,
                ),
                _ => MaroonStepResult::Done,
            }
        },
        MaroonTaskState::FactorialBegin => {
            match runtime {
                MaroonTaskRuntime::Factorial(data) => {
                    data.result = 1;
                    data.next_multiplier = data.n;
                    MaroonStepResult::CallU64(
                        MaroonTaskState::FactorialRecursion,
                        data.next_multiplier,
                        MaroonTaskState::FactorialReturn,
                    )
                },
                _ => MaroonStepResult::Done,
            }
        },
        MaroonTaskState::FactorialRecursion => {
            match (runtime, ctx) {
                (MaroonTaskRuntime::Factorial(data), MaroonContextValue::U64(n)) => {
                    data.result = data.result * n;
                    data.next_multiplier = n - 1;
                    MaroonStepResult::Write(
                        format_intermediate_factorial_result(style, data.next_multiplier, data.result),
                        MaroonTaskState::FactorialRecursionPostWrite,
                    )
                },
                _ => MaroonStepResult::Done,
            }
        },
        MaroonTaskState::FactorialRecursionPostWrite => {
            match runtime {
                MaroonTaskRuntime::Factorial(data) => MaroonStepResult::Sleep(
                    LogicalTimeDeltaMs::from_millis(data.next_multiplier * 50),
                    MaroonTaskState::FactorialRecursionPostSleep,
                ),
                _ => MaroonStepResult::Done,
            }
        },
        MaroonTaskState::FactorialRecursionPostSleep => {
            match runtime {
                MaroonTaskRuntime::Factorial(data) => MaroonStepResult::ReturnU64(data.next_multiplier),
                _ => MaroonStepResult::Done,
            }
        },
        MaroonTaskState::FactorialReturn => {
            match (runtime, ctx) {
                (MaroonTaskRuntime::Factorial(data), MaroonContextValue::U64(v)) => {
                    if v > 1 {
                        MaroonStepResult::CallU64(
                            MaroonTaskState::FactorialRecursion,
                            data.next_multiplier,
                            MaroonTaskState::FactorialReturn,
                        )
                    } else {
                        MaroonStepResult::Write(
                            format_factorial_result(style, data.n, data.result),
                            MaroonTaskState::Completed,
                        )
                    }
                },
                _ => MaroonStepResult::Done,
            }
        },
        MaroonTaskState::Completed => MaroonStepResult::Done,
    }
}

} // verus!
