//! What a single task does on its own, step by step and to its end; that
//! the task programs compute what they are named after; and that the
//! scheduler moves every task exactly as it would move on its own.

use vstd::prelude::*;
use crate::logical_time::{LogicalTimeAbsoluteMs, MaroonTaskId};
use crate::scheduler::{
    MaroonRuntime, TimestampedMaroonTask, earliest_index, lemma_earliest_exists, next_call_stack, next_operation,
    sleep_overflows,
};
use crate::task_messages::{
    MessageStyle, spec_format_divisor_found, spec_format_divisors_done, spec_format_factorial_result,
    spec_format_delayed_message, spec_format_fibonacci_result, spec_format_fibonacci_step,
    spec_format_intermediate_factorial_result,
};
use crate::tasks::{
    MaroonContextValue, MaroonTaskState, RuntimeModel, StepModel, largest_divisor_at_most, spec_global_step,
    step_defined,
};

verus! {

/// One task on its own: its call stack, its data, the value handed to its
/// next step, and the instant that step is due.
pub struct TaskRun {
    pub stack: Seq<MaroonTaskState>,
    pub rt: RuntimeModel,
    pub ctx: MaroonContextValue,
    pub time: u64,
}

/// What the next step of a task does.
pub enum TaskMove {
    /// The task is done.
    Finished,
    /// The step cannot run (the scheduler reports a fault).
    Stuck,
    /// The task moves on, writing the text if there is one.
    Moved(TaskRun, Option<Seq<char>>),
}

/// The text a step writes, if it writes one.
pub open spec fn written_text(res: StepModel) -> Option<Seq<char>> {
    match res {
        StepModel::Write(t, _) => Some(t),
        _ => None,
    }
}

/// The next step of a task, as the scheduler runs it.
pub open spec fn task_move(c: TaskRun, style: MessageStyle) -> TaskMove {
    if c.stack.len() == 0 || !step_defined(c.stack.last(), c.rt, c.ctx) {
        TaskMove::Stuck
    } else {
        let (rt, res) = spec_global_step(c.stack.last(), c.rt, c.ctx, style);
        if res is Done {
            TaskMove::Finished
        } else if sleep_overflows(c.time, res) {
            TaskMove::Stuck
        } else {
            let op = next_operation(c.time, 0, res)->Some_0;
            TaskMove::Moved(
                TaskRun { stack: next_call_stack(c.stack, res), rt, ctx: op.ctx, time: op.scheduled_timestamp.0 },
                written_text(res),
            )
        }
    }
}

/// The texts a task writes when it runs to its end within `fuel` steps;
/// `None` when it gets stuck or needs more steps.
pub open spec fn run_writes(c: TaskRun, style: MessageStyle, fuel: nat) -> Option<Seq<Seq<char>>>
    decreases fuel,
{
    if fuel == 0 {
        None
    } else {
        match task_move(c, style) {
            TaskMove::Finished => Some(Seq::empty()),
            TaskMove::Stuck => None,
            TaskMove::Moved(next, w) => match run_writes(next, style, (fuel - 1) as nat) {
                Some(rest) => Some(
                    match w {
                        Some(t) => seq![t] + rest,
                        None => rest,
                    },
                ),
                None => None,
            },
        }
    }
}

/// A delayed-message task about to start at `time`.
pub open spec fn delayed_message_start(delay: u64, message: Seq<char>, ctx: MaroonContextValue, time: u64) -> TaskRun {
    TaskRun {
        stack: seq![MaroonTaskState::DelayedMessageTaskBegin],
        rt: RuntimeModel::DelayedMessage { delay, message },
        ctx,
        time,
    }
}

/// A delayed message is written once the delay has passed, in either style:
/// started at `time` with delay `delay`, the task first sleeps and is next
/// due at exactly `time + delay`, writing nothing; then it writes its one
/// text at that instant; then it ends. A delay that would run the clock past
/// 64 bits leaves the task stuck.
pub proof fn lemma_delayed_message_waits_its_delay(
    delay: u64,
    message: Seq<char>,
    ctx: MaroonContextValue,
    time: u64,
    style: MessageStyle,
)
    ensures
        time + delay <= u64::MAX ==> {
            let c0 = delayed_message_start(delay, message, ctx, time);
            let c1 = task_move(c0, style)->Moved_0;
            let c2 = task_move(c1, style)->Moved_0;
            &&& task_move(c0, style) is Moved
            &&& task_move(c0, style)->Moved_1 is None
            &&& c1.time == time + delay
            &&& task_move(c1, style) is Moved
            &&& task_move(c1, style)->Moved_1 == Some(spec_format_delayed_message(style, delay, message))
            &&& c2.time == time + delay
            &&& task_move(c2, style) is Finished
        },
        time + delay <= u64::MAX ==> run_writes(delayed_message_start(delay, message, ctx, time), style, 3)
            == Some(seq![spec_format_delayed_message(style, delay, message)]),
        time + delay > u64::MAX ==> task_move(delayed_message_start(delay, message, ctx, time), style) is Stuck,
{
    let c0 = delayed_message_start(delay, message, ctx, time);
    assert(c0.stack.last() == MaroonTaskState::DelayedMessageTaskBegin);
    if time + delay <= u64::MAX {
        let rt = RuntimeModel::DelayedMessage { delay, message };
        let c1 = TaskRun {
            stack: seq![MaroonTaskState::DelayedMessageTaskExecute],
            rt,
            ctx: MaroonContextValue::NoValue,
            time: (time + delay) as u64,
        };
        assert(next_call_stack(c0.stack, StepModel::Sleep(delay, MaroonTaskState::DelayedMessageTaskExecute)) =~= c1.stack);
        assert(task_move(c0, style) == TaskMove::Moved(c1, None));
        let text = spec_format_delayed_message(style, delay, message);
        let c2 = TaskRun {
            stack: seq![MaroonTaskState::Completed],
            rt,
            ctx: MaroonContextValue::NoValue,
            time: (time + delay) as u64,
        };
        assert(c1.stack.last() == MaroonTaskState::DelayedMessageTaskExecute);
        assert(next_call_stack(c1.stack, StepModel::Write(text, MaroonTaskState::Completed)) =~= c2.stack);
        assert(task_move(c1, style) == TaskMove::Moved(c2, Some(text)));
        assert(task_move(c2, style) == TaskMove::Finished);
        assert(run_writes(c2, style, 1) == Some(Seq::<Seq<char>>::empty()));
        assert(run_writes(c1, style, 2) == Some(seq![text]));
        assert(run_writes(c0, style, 3) == Some(seq![text]));
    }
}

pub open spec fn factorial(n: nat) -> nat
    decreases n,
{
    if n == 0 {
        1
    } else {
        n * factorial((n - 1) as nat)
    }
}

proof fn lemma_factorial_positive(n: nat)
    ensures
        factorial(n) >= 1,
    decreases n,
{
    if n > 0 {
        lemma_factorial_positive((n - 1) as nat);
        assert(n * factorial((n - 1) as nat) >= 1) by (nonlinear_arith)
            requires
                n >= 1,
                factorial((n - 1) as nat) >= 1,
        ;
    }
}

/// The factorial task at the call of its recursion on `v`, having
/// multiplied up `r` so far.
pub open spec fn factorial_call(n: u64, r: u64, v: u64, nm: u64, time: u64) -> TaskRun {
    TaskRun {
        stack: seq![MaroonTaskState::FactorialReturn, MaroonTaskState::FactorialRecursion],
        rt: RuntimeModel::Factorial { n, result: r, next_multiplier: nm },
        ctx: MaroonContextValue::U64(v),
        time,
    }
}

/// The product `v * (v - 1) * ... * (k + 1)`, that is `v! / k!` for `k <= v`.
pub open spec fn falling(v: nat, k: nat) -> nat
    decreases v,
{
    if v <= k {
        1
    } else {
        v * falling((v - 1) as nat, k)
    }
}

/// The texts the factorial task writes from the call of its recursion on
/// `v`, having multiplied up `r`: for each `k` from `v - 1` down to 1 (to 0
/// when `v` is 1) the intermediate result `r * v! / k!`, then the result
/// `r * v!` for `n`.
pub open spec fn factorial_texts(style: MessageStyle, n: u64, r: nat, v: nat) -> Seq<Seq<char>> {
    let written: nat = if v >= 2 { (v - 1) as nat } else { 1 };
    Seq::new(
        written,
        |j: int| spec_format_intermediate_factorial_result(style, (v - 1 - j) as u64, (r * falling(v, (v - 1 - j) as nat)) as u64),
    ).push(spec_format_factorial_result(style, n, (r * factorial(v)) as u64))
}

/// Past its first text, the factorial texts from `v` are those from `v - 1`
/// with `r * v` multiplied up.
proof fn lemma_factorial_texts_unfold(style: MessageStyle, n: u64, r: nat, v: nat)
    requires
        v > 2,
    ensures
        factorial_texts(style, n, r, v) =~= seq![
            spec_format_intermediate_factorial_result(style, (v - 1) as u64, (r * v) as u64),
        ] + factorial_texts(style, n, r * v, (v - 1) as nat),
{
    let lhs = factorial_texts(style, n, r, v);
    let rhs = seq![spec_format_intermediate_factorial_result(style, (v - 1) as u64, (r * v) as u64)]
        + factorial_texts(style, n, r * v, (v - 1) as nat);
    assert(falling(v, (v - 1) as nat) == v * falling((v - 1) as nat, (v - 1) as nat));
    assert(falling((v - 1) as nat, (v - 1) as nat) == 1);
    assert(falling(v, (v - 1) as nat) == v) by (nonlinear_arith)
        requires
            falling(v, (v - 1) as nat) == v * falling((v - 1) as nat, (v - 1) as nat),
            falling((v - 1) as nat, (v - 1) as nat) == 1,
    ;
    assert(rhs[0] == spec_format_intermediate_factorial_result(style, (v - 1) as u64, (r * v) as u64));
    assert(lhs[0] == spec_format_intermediate_factorial_result(style, (v - 1) as u64, (r * falling(v, (v - 1) as nat)) as u64));
    assert(lhs[0] == rhs[0]);
    assert forall|j: int| 1 <= j < v - 1 implies lhs[j] == rhs[j] by {
        let k = (v - 1 - j) as nat;
        assert(falling(v, k) == v * falling((v - 1) as nat, k));
        assert(r * (v * falling((v - 1) as nat, k)) == (r * v) * falling((v - 1) as nat, k)) by (nonlinear_arith);
    }
    assert(factorial(v) == v * factorial((v - 1) as nat));
    assert(r * (v * factorial((v - 1) as nat)) == (r * v) * factorial((v - 1) as nat)) by (nonlinear_arith);
    assert(lhs[v as int - 1] == rhs[v as int - 1]);
}

/// From the call on `v`, the task runs to its end writing the factorial
/// texts.
proof fn lemma_factorial_loop(n: u64, r: u64, v: u64, nm: u64, time: u64, style: MessageStyle)
    requires
        v >= 1,
        r * factorial(v as nat) <= u64::MAX,
        time + 50 * v * v <= u64::MAX,
    ensures
        exists|fuel: nat| #[trigger] run_writes(factorial_call(n, r, v, nm, time), style, fuel)
            == Some(factorial_texts(style, n, r as nat, v as nat)),
    decreases v,
{
    let c0 = factorial_call(n, r, v, nm, time);
    lemma_factorial_positive((v - 1) as nat);
    assert(r * v <= r * factorial(v as nat)) by (nonlinear_arith)
        requires
            v >= 1,
            factorial(v as nat) == v * factorial((v - 1) as nat),
            factorial((v - 1) as nat) >= 1,
    ;
    let r1 = (r * v) as u64;
    let nm1 = (v - 1) as u64;
    assert(50 * nm1 <= u64::MAX && time + 50 * nm1 + 50 * nm1 * nm1 <= u64::MAX) by (nonlinear_arith)
        requires
            v >= 1,
            nm1 == v - 1,
            time + 50 * v * v <= u64::MAX,
    ;
    // the recursion step writes the intermediate result
    let c1 = TaskRun {
        stack: seq![MaroonTaskState::FactorialReturn, MaroonTaskState::FactorialRecursionPostWrite],
        rt: RuntimeModel::Factorial { n, result: r1, next_multiplier: nm1 },
        ctx: MaroonContextValue::NoValue,
        time,
    };
    assert(task_move(c0, style) matches TaskMove::Moved(next, Some(_)) && next == c1) by {
        assert(c0.stack.last() == MaroonTaskState::FactorialRecursion);
        assert(next_call_stack(c0.stack, spec_global_step(c0.stack.last(), c0.rt, c0.ctx, style).1) =~= c1.stack);
    }
    // the write is followed by a sleep
    let t2 = (time + 50 * nm1) as u64;
    let c2 = TaskRun {
        stack: seq![MaroonTaskState::FactorialReturn, MaroonTaskState::FactorialRecursionPostSleep],
        rt: RuntimeModel::Factorial { n, result: r1, next_multiplier: nm1 },
        ctx: MaroonContextValue::NoValue,
        time: t2,
    };
    assert(task_move(c1, style) == TaskMove::Moved(c2, None)) by {
        assert(c1.stack.last() == MaroonTaskState::FactorialRecursionPostWrite);
        assert(next_call_stack(c1.stack, spec_global_step(c1.stack.last(), c1.rt, c1.ctx, style).1) =~= c2.stack);
    }
    // the sleep is followed by the return of the next multiplier
    let c3 = TaskRun {
        stack: seq![MaroonTaskState::FactorialReturn],
        rt: RuntimeModel::Factorial { n, result: r1, next_multiplier: nm1 },
        ctx: MaroonContextValue::U64(nm1),
        time: t2,
    };
    assert(task_move(c2, style) == TaskMove::Moved(c3, None)) by {
        assert(c2.stack.last() == MaroonTaskState::FactorialRecursionPostSleep);
        assert(next_call_stack(c2.stack, spec_global_step(c2.stack.last(), c2.rt, c2.ctx, style).1) =~= c3.stack);
    }
    if nm1 > 1 {
        // the return calls the recursion again on the next multiplier
        let c4 = factorial_call(n, r1, nm1, nm1, t2);
        assert(task_move(c3, style) == TaskMove::Moved(c4, None)) by {
            assert(c3.stack.last() == MaroonTaskState::FactorialReturn);
            assert(next_call_stack(c3.stack, spec_global_step(c3.stack.last(), c3.rt, c3.ctx, style).1) =~= c4.stack);
        }
        assert(r1 * factorial(nm1 as nat) == r * factorial(v as nat)) by (nonlinear_arith)
            requires
                r1 == r * v,
                nm1 == v - 1,
                factorial(v as nat) == v * factorial((v - 1) as nat),
        ;
        assert(t2 + 50 * nm1 * nm1 <= u64::MAX);
        lemma_factorial_loop(n, r1, nm1, nm1, t2, style);
        let rest = factorial_texts(style, n, r1 as nat, nm1 as nat);
        let fuel = choose|fuel: nat| #[trigger] run_writes(c4, style, fuel) == Some(rest);
        assert(run_writes(c3, style, fuel + 1) == Some(rest));
        assert(run_writes(c2, style, fuel + 2) == Some(rest));
        assert(run_writes(c1, style, fuel + 3) == Some(rest));
        let w = task_move(c0, style)->Moved_1->Some_0;
        assert(run_writes(c0, style, fuel + 4) == Some(seq![w] + rest));
        lemma_factorial_texts_unfold(style, n, r as nat, v as nat);
        assert(r1 == r * v);
        assert(factorial_texts(style, n, r as nat, v as nat) =~= seq![w] + rest);
    } else {
        // the last multiplication is done: the result is written
        assert(factorial(nm1 as nat) == 1) by {
            assert(factorial(0) == 1);
            if nm1 == 1 {
                assert(factorial(1) == 1 * factorial(0));
            }
        }
        assert(factorial(v as nat) == v) by (nonlinear_arith)
            requires
                factorial(v as nat) == v * factorial(nm1 as nat),
                factorial(nm1 as nat) == 1,
        ;
        assert(r1 == r * factorial(v as nat)) by (nonlinear_arith)
            requires
                factorial(v as nat) == v,
                r1 == r * v,
        ;
        let text = spec_format_factorial_result(style, n, r1);
        let c4 = TaskRun {
            stack: seq![MaroonTaskState::Completed],
            rt: RuntimeModel::Factorial { n, result: r1, next_multiplier: nm1 },
            ctx: MaroonContextValue::NoValue,
            time: t2,
        };
        assert(task_move(c3, style) == TaskMove::Moved(c4, Some(text))) by {
            assert(c3.stack.last() == MaroonTaskState::FactorialReturn);
            assert(next_call_stack(c3.stack, spec_global_step(c3.stack.last(), c3.rt, c3.ctx, style).1) =~= c4.stack);
        }
        assert(task_move(c4, style) == TaskMove::Finished);
        assert(run_writes(c4, style, 1) == Some(Seq::<Seq<char>>::empty()));
        assert(run_writes(c3, style, 2) == Some(seq![text]));
        assert(run_writes(c2, style, 3) == Some(seq![text]));
        assert(run_writes(c1, style, 4) == Some(seq![text]));
        let w = task_move(c0, style)->Moved_1->Some_0;
        assert(run_writes(c0, style, 5) == Some(seq![w] + seq![text]));
        assert(falling(v as nat, nm1 as nat) == v) by {
            assert(falling(nm1 as nat, nm1 as nat) == 1);
        }
        assert(factorial_texts(style, n, r as nat, v as nat) =~= seq![w] + seq![text]);
    }
}

/// The factorial task computes `n!`: started on `n >= 1` whose factorial
/// fits in 64 bits, with room on the clock for its waits, it runs to its
/// end, writing `n! / k!` for each `k` from `n - 1` down to 1 (down to 0
/// when `n` is 1), then the factorial result with `n!`.
pub proof fn lemma_factorial_task_writes_factorial(
    n: u64,
    r: u64,
    nm: u64,
    ctx: MaroonContextValue,
    time: u64,
    style: MessageStyle,
)
    requires
        n >= 1,
        factorial(n as nat) <= u64::MAX,
        time + 50 * n * n <= u64::MAX,
    ensures
        exists|fuel: nat| #[trigger] run_writes(
            TaskRun {
                stack: seq![MaroonTaskState::FactorialBegin],
                rt: RuntimeModel::Factorial { n, result: r, next_multiplier: nm },
                ctx,
                time,
            },
            style,
            fuel,
        ) == Some(factorial_texts(style, n, 1, n as nat)),
{
    let c0 = TaskRun {
        stack: seq![MaroonTaskState::FactorialBegin],
        rt: RuntimeModel::Factorial { n, result: r, next_multiplier: nm },
        ctx,
        time,
    };
    let c1 = factorial_call(n, 1, n, n, time);
    assert(task_move(c0, style) == TaskMove::Moved(c1, None)) by {
        assert(c0.stack.last() == MaroonTaskState::FactorialBegin);
        assert(next_call_stack(c0.stack, spec_global_step(c0.stack.last(), c0.rt, c0.ctx, style).1) =~= c1.stack);
    }
    assert(1 * factorial(n as nat) == factorial(n as nat));
    lemma_factorial_loop(n, 1, n, n, time, style);
    let fuel = choose|fuel: nat| #[trigger] run_writes(c1, style, fuel)
        == Some(factorial_texts(style, n, 1, n as nat));
    assert(run_writes(c0, style, fuel + 1) == run_writes(c1, style, fuel));
}

/// The divisors of `n` that are at most `i`, largest first.
pub open spec fn divisors_from(n: u64, i: nat) -> Seq<u64>
    decreases i,
{
    if i == 0 {
        Seq::empty()
    } else if n as nat % i == 0 {
        seq![i as u64] + divisors_from(n, (i - 1) as nat)
    } else {
        divisors_from(n, (i - 1) as nat)
    }
}

/// The texts the divisors task writes: one per divisor, largest first,
/// then the closing text.
pub open spec fn divisor_texts(style: MessageStyle, n: u64, ds: Seq<u64>) -> Seq<Seq<char>> {
    ds.map_values(|d: u64| spec_format_divisor_found(style, n, d)).push(spec_format_divisors_done(style, n))
}

proof fn lemma_largest_divisor(n: u64, i: nat)
    ensures
        largest_divisor_at_most(n, i) <= i,
        largest_divisor_at_most(n, i) == 0 ==> divisors_from(n, i) == Seq::<u64>::empty(),
        largest_divisor_at_most(n, i) > 0 ==> i <= u64::MAX ==>
            divisors_from(n, i) == seq![largest_divisor_at_most(n, i) as u64]
                + divisors_from(n, (largest_divisor_at_most(n, i) - 1) as nat),
    decreases i,
{
    if i > 0 {
        lemma_largest_divisor(n, (i - 1) as nat);
    }
}

/// The divisors task waiting to look for the next divisor at most `i`.
pub open spec fn divisors_search(n: u64, i: u64, time: u64) -> TaskRun {
    TaskRun {
        stack: seq![MaroonTaskState::DivisorsTaskIteration],
        rt: RuntimeModel::Divisors { n, i },
        ctx: MaroonContextValue::NoValue,
        time,
    }
}

proof fn lemma_divisors_loop(n: u64, i: u64, time: u64, style: MessageStyle)
    requires
        time + 10 * i * i <= u64::MAX,
    ensures
        exists|fuel: nat| #[trigger] run_writes(divisors_search(n, i, time), style, fuel)
            == Some(divisor_texts(style, n, divisors_from(n, i as nat))),
    decreases i,
{
    let c0 = divisors_search(n, i, time);
    lemma_largest_divisor(n, i as nat);
    let d = largest_divisor_at_most(n, i as nat);
    if d == 0 {
        let c1 = TaskRun {
            stack: seq![MaroonTaskState::Completed],
            rt: RuntimeModel::Divisors { n, i },
            ctx: MaroonContextValue::NoValue,
            time,
        };
        let done = spec_format_divisors_done(style, n);
        assert(task_move(c0, style) == TaskMove::Moved(c1, Some(done))) by {
            assert(c0.stack.last() == MaroonTaskState::DivisorsTaskIteration);
            assert(next_call_stack(c0.stack, spec_global_step(c0.stack.last(), c0.rt, c0.ctx, style).1) =~= c1.stack);
        }
        assert(task_move(c1, style) == TaskMove::Finished);
        assert(run_writes(c1, style, 1) == Some(Seq::<Seq<char>>::empty()));
        assert(divisor_texts(style, n, divisors_from(n, i as nat)) =~= seq![done]);
        assert(run_writes(c0, style, 2) == Some(seq![done]));
    } else {
        let du = d as u64;
        assert(10 * du <= u64::MAX && time + 10 * du + 10 * (du - 1) * (du - 1) <= u64::MAX) by (nonlinear_arith)
            requires
                1 <= du <= i,
                time + 10 * i * i <= u64::MAX,
        ;
        let t1 = (time + 10 * du) as u64;
        let c1 = TaskRun {
            stack: seq![MaroonTaskState::DivisorsPrintAndMoveOn],
            rt: RuntimeModel::Divisors { n, i: du },
            ctx: MaroonContextValue::NoValue,
            time: t1,
        };
        assert(task_move(c0, style) == TaskMove::Moved(c1, None)) by {
            assert(c0.stack.last() == MaroonTaskState::DivisorsTaskIteration);
            assert(next_call_stack(c0.stack, spec_global_step(c0.stack.last(), c0.rt, c0.ctx, style).1) =~= c1.stack);
        }
        let found = spec_format_divisor_found(style, n, du);
        let c2 = divisors_search(n, (du - 1) as u64, t1);
        assert(task_move(c1, style) == TaskMove::Moved(c2, Some(found))) by {
            assert(c1.stack.last() == MaroonTaskState::DivisorsPrintAndMoveOn);
            assert(next_call_stack(c1.stack, spec_global_step(c1.stack.last(), c1.rt, c1.ctx, style).1) =~= c2.stack);
        }
        lemma_divisors_loop(n, (du - 1) as u64, t1, style);
        let fuel = choose|fuel: nat| #[trigger] run_writes(c2, style, fuel)
            == Some(divisor_texts(style, n, divisors_from(n, (du - 1) as nat)));
        let rest = divisor_texts(style, n, divisors_from(n, (du - 1) as nat));
        assert(run_writes(c1, style, fuel + 1) == Some(seq![found] + rest));
        assert(run_writes(c0, style, fuel + 2) == Some(seq![found] + rest));
        assert(divisor_texts(style, n, divisors_from(n, i as nat)) =~= seq![found] + rest);
    }
}

/// The divisors task writes the divisors of `n`, largest first, and then
/// its closing text: started on `n` with room on the clock for its waits,
/// it runs to its end writing exactly these texts.
pub proof fn lemma_divisors_task_writes_divisors(n: u64, i: u64, ctx: MaroonContextValue, time: u64, style: MessageStyle)
    requires
        time + 10 * n * n <= u64::MAX,
    ensures
        exists|fuel: nat| #[trigger] run_writes(
            TaskRun { stack: seq![MaroonTaskState::DivisorsTaskBegin], rt: RuntimeModel::Divisors { n, i }, ctx, time },
            style,
            fuel,
        ) == Some(divisor_texts(style, n, divisors_from(n, n as nat))),
{
    let c0 = TaskRun { stack: seq![MaroonTaskState::DivisorsTaskBegin], rt: RuntimeModel::Divisors { n, i }, ctx, time };
    let c1 = divisors_search(n, n, time);
    assert(task_move(c0, style) == TaskMove::Moved(c1, None)) by {
        assert(c0.stack.last() == MaroonTaskState::DivisorsTaskBegin);
        assert(next_call_stack(c0.stack, spec_global_step(c0.stack.last(), c0.rt, c0.ctx, style).1) =~= c1.stack);
    }
    lemma_divisors_loop(n, n, time, style);
    let fuel = choose|fuel: nat| #[trigger] run_writes(c1, style, fuel)
        == Some(divisor_texts(style, n, divisors_from(n, n as nat)));
    assert(run_writes(c0, style, fuel + 1) == run_writes(c1, style, fuel));
}

pub open spec fn fib(k: nat) -> nat
    decreases k,
{
    if k == 0 {
        0
    } else if k == 1 {
        1
    } else {
        fib((k - 1) as nat) + fib((k - 2) as nat)
    }
}

proof fn lemma_fib_monotonic(j: nat, k: nat)
    requires
        j <= k,
    ensures
        fib(j) <= fib(k),
    decreases k - j,
{
    if j < k {
        lemma_fib_monotonic(j, (k - 1) as nat);
        if k >= 2 {
            assert(fib(k) == fib((k - 1) as nat) + fib((k - 2) as nat));
        }
    }
}

/// The step texts the Fibonacci task writes from index `k` up to `n - 1`.
pub open spec fn fibonacci_texts(style: MessageStyle, n: u64, k: nat) -> Seq<Seq<char>>
    decreases n - k,
{
    if k >= n {
        Seq::empty()
    } else {
        seq![spec_format_fibonacci_step(style, n, k as u64, fib(k) as u64)] + fibonacci_texts(style, n, k + 1)
    }
}

/// The Fibonacci task about to compute the step at index `k`.
pub open spec fn fibonacci_at(n: u64, k: u64, delay_ms: u64, time: u64) -> TaskRun {
    TaskRun {
        stack: seq![MaroonTaskState::FibonacciTaskCalculate],
        rt: RuntimeModel::Fibonacci {
            n,
            index: k,
            a: fib((k - 1) as nat) as u64,
            b: fib(k as nat) as u64,
            delay_ms,
        },
        ctx: MaroonContextValue::NoValue,
        time,
    }
}

proof fn lemma_fibonacci_loop(n: u64, k: u64, delay_ms: u64, time: u64, style: MessageStyle)
    requires
        1 <= k <= n,
        fib(n as nat) <= u64::MAX,
        time + 5 * (n * n - k * k) <= u64::MAX,
    ensures
        exists|fuel: nat| #[trigger] run_writes(fibonacci_at(n, k, delay_ms, time), style, fuel)
            == Some(fibonacci_texts(style, n, k as nat).push(spec_format_fibonacci_result(style, n, fib(n as nat) as u64))),
    decreases n - k,
{
    let c0 = fibonacci_at(n, k, delay_ms, time);
    lemma_fib_monotonic((k - 1) as nat, n as nat);
    lemma_fib_monotonic(k as nat, n as nat);
    let result = spec_format_fibonacci_result(style, n, fib(n as nat) as u64);
    if k >= n {
        let c1 = TaskRun { stack: seq![MaroonTaskState::FibonacciTaskResult], rt: c0.rt, ctx: MaroonContextValue::NoValue, time };
        assert(task_move(c0, style) == TaskMove::Moved(c1, None)) by {
            assert(c0.stack.last() == MaroonTaskState::FibonacciTaskCalculate);
            assert(next_call_stack(c0.stack, spec_global_step(c0.stack.last(), c0.rt, c0.ctx, style).1) =~= c1.stack);
        }
        let c2 = TaskRun { stack: seq![MaroonTaskState::Completed], rt: c0.rt, ctx: MaroonContextValue::NoValue, time };
        assert(task_move(c1, style) == TaskMove::Moved(c2, Some(result))) by {
            assert(c1.stack.last() == MaroonTaskState::FibonacciTaskResult);
            assert(next_call_stack(c1.stack, spec_global_step(c1.stack.last(), c1.rt, c1.ctx, style).1) =~= c2.stack);
        }
        assert(task_move(c2, style) == TaskMove::Finished);
        assert(run_writes(c2, style, 1) == Some(Seq::<Seq<char>>::empty()));
        assert(run_writes(c1, style, 2) == Some(seq![result]));
        assert(run_writes(c0, style, 3) == Some(seq![result]));
        assert(fibonacci_texts(style, n, k as nat).push(result) =~= seq![result]);
    } else {
        assert(5 * k <= u64::MAX && time + 5 * k <= u64::MAX
            && time + 5 * k + 5 * (n * n - (k + 1) * (k + 1)) <= u64::MAX) by (nonlinear_arith)
            requires
                1 <= k < n,
                time + 5 * (n * n - k * k) <= u64::MAX,
        ;
        lemma_fib_monotonic((k + 1) as nat, n as nat);
        assert(fib((k + 1) as nat) == fib(k as nat) + fib((k - 1) as nat));
        let step_text = spec_format_fibonacci_step(style, n, k, fib(k as nat) as u64);
        let d = (5 * k) as u64;
        let c1 = TaskRun {
            stack: seq![MaroonTaskState::FibonacciTaskStep],
            rt: RuntimeModel::Fibonacci {
                n,
                index: k,
                a: fib((k - 1) as nat) as u64,
                b: fib(k as nat) as u64,
                delay_ms: d,
            },
            ctx: MaroonContextValue::NoValue,
            time,
        };
        assert(task_move(c0, style) == TaskMove::Moved(c1, Some(step_text))) by {
            assert(c0.stack.last() == MaroonTaskState::FibonacciTaskCalculate);
            assert(next_call_stack(c0.stack, spec_global_step(c0.stack.last(), c0.rt, c0.ctx, style).1) =~= c1.stack);
        }
        let t1 = (time + d) as u64;
        let c2 = fibonacci_at(n, (k + 1) as u64, d, t1);
        assert(task_move(c1, style) == TaskMove::Moved(c2, None)) by {
            assert(c1.stack.last() == MaroonTaskState::FibonacciTaskStep);
            assert(next_call_stack(c1.stack, spec_global_step(c1.stack.last(), c1.rt, c1.ctx, style).1) =~= c2.stack);
        }
        lemma_fibonacci_loop(n, (k + 1) as u64, d, t1, style);
        let fuel = choose|fuel: nat| #[trigger] run_writes(c2, style, fuel)
            == Some(fibonacci_texts(style, n, (k + 1) as nat).push(result));
        let rest = fibonacci_texts(style, n, (k + 1) as nat).push(result);
        assert(run_writes(c1, style, fuel + 1) == Some(rest));
        assert(run_writes(c0, style, fuel + 2) == Some(seq![step_text] + rest));
        assert(fibonacci_texts(style, n, k as nat).push(result) =~= seq![step_text] + rest);
    }
}

/// The Fibonacci task computes `fib(n)`: started on `n` whose Fibonacci
/// number fits in 64 bits, with room on the clock for its waits, it runs to
/// its end, writing `fib(k)` for each index `k` from one below `n`, then
/// the result with `fib(n)`.
pub proof fn lemma_fibonacci_task_writes_fibonacci(
    n: u64,
    index: u64,
    a: u64,
    b: u64,
    delay_ms: u64,
    ctx: MaroonContextValue,
    time: u64,
    style: MessageStyle,
)
    requires
        fib(n as nat) <= u64::MAX,
        time + 5 * n * n <= u64::MAX,
    ensures
        exists|fuel: nat| #[trigger] run_writes(
            TaskRun {
                stack: seq![MaroonTaskState::FibonacciTaskBegin],
                rt: RuntimeModel::Fibonacci { n, index, a, b, delay_ms },
                ctx,
                time,
            },
            style,
            fuel,
        ) == Some(fibonacci_texts(style, n, 1).push(spec_format_fibonacci_result(style, n, fib(n as nat) as u64))),
{
    let c0 = TaskRun {
        stack: seq![MaroonTaskState::FibonacciTaskBegin],
        rt: RuntimeModel::Fibonacci { n, index, a, b, delay_ms },
        ctx,
        time,
    };
    let result = spec_format_fibonacci_result(style, n, fib(n as nat) as u64);
    if n <= 1 {
        assert(fib(n as nat) == n as nat);
        let c1 = TaskRun { stack: seq![MaroonTaskState::Completed], rt: c0.rt, ctx: MaroonContextValue::NoValue, time };
        assert(task_move(c0, style) == TaskMove::Moved(c1, Some(result))) by {
            assert(c0.stack.last() == MaroonTaskState::FibonacciTaskBegin);
            assert(next_call_stack(c0.stack, spec_global_step(c0.stack.last(), c0.rt, c0.ctx, style).1) =~= c1.stack);
        }
        assert(task_move(c1, style) == TaskMove::Finished);
        assert(run_writes(c1, style, 1) == Some(Seq::<Seq<char>>::empty()));
        assert(run_writes(c0, style, 2) == Some(seq![result]));
        assert(fibonacci_texts(style, n, 1).push(result) =~= seq![result]);
    } else {
        let c1 = fibonacci_at(n, 1, delay_ms, time);
        assert(fib(0) == 0 && fib(1) == 1);
        assert(task_move(c0, style) == TaskMove::Moved(c1, None)) by {
            assert(c0.stack.last() == MaroonTaskState::FibonacciTaskBegin);
            assert(next_call_stack(c0.stack, spec_global_step(c0.stack.last(), c0.rt, c0.ctx, style).1) =~= c1.stack);
        }
        assert(time + 5 * (n * n - 1 * 1) <= u64::MAX) by (nonlinear_arith)
            requires
                time + 5 * n * n <= u64::MAX,
                n >= 2,
        ;
        lemma_fibonacci_loop(n, 1, delay_ms, time, style);
        let fuel = choose|fuel: nat| #[trigger] run_writes(c1, style, fuel)
            == Some(fibonacci_texts(style, n, 1).push(result));
        assert(run_writes(c0, style, fuel + 1) == run_writes(c1, style, fuel));
    }
}

/// The task whose step a runtime runs next, seen on its own.
pub open spec fn due_task<W>(r: MaroonRuntime<W>) -> TaskRun {
    let op = r.due_operation();
    let task = r.tasks()[op.task_id.0];
    TaskRun { stack: task.call_stack@, rt: task.runtime@, ctx: op.ctx, time: op.scheduled_timestamp.0 }
}

/// Tasks do not disturb one another: when the scheduler runs a step, the
/// task it belongs to moves on exactly as it would on its own (same call
/// stack, data, next value and instant, same text written, or the end of
/// the task), and every other task stays as it was.
pub proof fn lemma_scheduler_runs_each_task_as_alone<W>(r: MaroonRuntime<W>, s: MaroonRuntime<W>)
    requires
        r.wf(),
        r.pending().len() > 0,
        !r.due_step_faults(),
        r.after_due_step(&s),
    ensures
        match task_move(due_task(r), r.style()) {
            TaskMove::Finished => {
                &&& s.tasks() == r.tasks().remove(r.due_operation().task_id.0)
                &&& s.pending() == r.pending().remove(earliest_index(r.pending()))
            },
            TaskMove::Moved(c, w) => {
                &&& s.tasks().dom() == r.tasks().dom()
                &&& forall|other: u64| other != r.due_operation().task_id.0 ==>
                    #[trigger] s.tasks().contains_key(other) ==> s.tasks()[other] == r.tasks()[other]
                &&& s.tasks()[r.due_operation().task_id.0].call_stack@ == c.stack
                &&& s.tasks()[r.due_operation().task_id.0].runtime@ == c.rt
                &&& s.pending() == r.pending().remove(earliest_index(r.pending())).push(
                    TimestampedMaroonTask {
                        scheduled_timestamp: LogicalTimeAbsoluteMs(c.time),
                        task_id: MaroonTaskId(r.due_operation().task_id.0),
                        ctx: c.ctx,
                    },
                )
                &&& w == written_text(r.due_step().1)
            },
            TaskMove::Stuck => false,
        },
{
    lemma_earliest_exists(r.pending());
    r.lemma_due_task_is_active();
    let op = r.due_operation();
    let id = op.task_id.0;
    let (rt, res) = r.due_step();
    match task_move(due_task(r), r.style()) {
        TaskMove::Finished => {},
        TaskMove::Moved(c, w) => {
            assert(r.tasks().contains_key(id));
            assert(s.tasks().dom() =~= r.tasks().dom());
        },
        TaskMove::Stuck => {},
    }
}

/// Task `id` of a runtime, seen on its own: its call stack, its data, and
/// the value and instant of its pending operation.
pub open spec fn task_of<W>(r: MaroonRuntime<W>, id: u64) -> TaskRun {
    let op = r.pending()[r.op_index(id)];
    let task = r.tasks()[id];
    TaskRun { stack: task.call_stack@, rt: task.runtime@, ctx: op.ctx, time: op.scheduled_timestamp.0 }
}

/// A task on its own after `k` moves; `None` once it has finished or got
/// stuck before that.
pub open spec fn after_moves(c: TaskRun, style: MessageStyle, k: nat) -> Option<TaskRun>
    decreases k,
{
    if k == 0 {
        Some(c)
    } else {
        match after_moves(c, style, (k - 1) as nat) {
            Some(c1) => match task_move(c1, style) {
                TaskMove::Moved(c2, _) => Some(c2),
                _ => None,
            },
            None => None,
        }
    }
}

/// `rs` is a run of the scheduler: every runtime is consistent, and each is
/// the one before it after its due step ran.
pub open spec fn is_run<W>(rs: Seq<MaroonRuntime<W>>) -> bool {
    &&& forall|i: int| 0 <= i < rs.len() ==> (#[trigger] rs[i]).wf()
    &&& forall|i: int| 0 <= i < rs.len() - 1 ==> {
        &&& (#[trigger] rs[i]).pending().len() > 0
        &&& !rs[i].due_step_faults()
        &&& rs[i].after_due_step(&rs[i + 1])
        &&& rs[i + 1].style() == rs[i].style()
    }
}

/// How many of the first `i` steps of a run were steps of task `id`.
pub open spec fn steps_of<W>(rs: Seq<MaroonRuntime<W>>, id: u64, i: int) -> nat
    decreases i,
{
    if i <= 0 {
        0
    } else {
        steps_of(rs, id, i - 1) + if rs[i - 1].due_operation().task_id.0 == id { 1nat } else { 0nat }
    }
}

/// One step of a run: the task that runs moves on as on its own, any other
/// active task stays where it was.
proof fn lemma_run_step<W>(r: MaroonRuntime<W>, s: MaroonRuntime<W>, id: u64)
    requires
        r.wf(),
        s.wf(),
        r.pending().len() > 0,
        !r.due_step_faults(),
        r.after_due_step(&s),
        s.tasks().contains_key(id),
    ensures
        r.tasks().contains_key(id),
        r.due_operation().task_id.0 == id ==> (task_move(task_of(r, id), r.style()) matches TaskMove::Moved(c, _)
            && c == task_of(s, id)),
        r.due_operation().task_id.0 != id ==> task_of(s, id) == task_of(r, id),
{
    lemma_scheduler_runs_each_task_as_alone(r, s);
    lemma_earliest_exists(r.pending());
    r.lemma_due_task_is_active();
    r.lemma_one_operation_per_task(id);
    s.lemma_one_operation_per_task(id);
    let k = earliest_index(r.pending());
    let due = r.due_operation().task_id.0;
    let rem = r.pending().remove(k);
    assert(s.tasks().dom().subset_of(r.tasks().dom())) by {
        match task_move(due_task(r), r.style()) {
            TaskMove::Finished => {},
            TaskMove::Moved(c, w) => {},
            TaskMove::Stuck => {},
        }
    }
    assert(r.tasks().contains_key(id));
    r.lemma_one_operation_per_task(id);
    if due == id {
        assert(r.op_index(id) == k);
        assert(due_task(r) == task_of(r, id));
        match task_move(due_task(r), r.style()) {
            TaskMove::Finished => {
                assert(!s.tasks().contains_key(id));
            },
            TaskMove::Moved(c, w) => {
                let last = s.pending().len() - 1;
                assert(s.pending()[last].task_id.0 == id);
                assert(s.op_index(id) == last);
                assert(task_of(s, id) =~= c) by {
                    assert(s.tasks()[id].call_stack@ == c.stack);
                }
            },
            TaskMove::Stuck => {},
        }
    } else {
        let j = r.op_index(id);
        assert(j != k);
        let j2 = if j < k { j } else { j - 1 };
        assert(rem[j2] == r.pending()[j]);
        match task_move(due_task(r), r.style()) {
            TaskMove::Finished => {
                assert(s.pending()[j2] == r.pending()[j]);
                assert(s.op_index(id) == j2);
                assert(s.tasks()[id] == r.tasks()[id]);
            },
            TaskMove::Moved(c, w) => {
                assert(s.pending()[j2] == r.pending()[j]);
                assert(s.op_index(id) == j2);
                assert(s.tasks()[id] == r.tasks()[id]);
            },
            TaskMove::Stuck => {},
        }
        assert(task_of(s, id) =~= task_of(r, id));
    }
}

/// Tasks run side by side as if each ran alone: along any run of the
/// scheduler, a task that is still active stands exactly where it would
/// stand on its own after as many moves as the scheduler has given it.
pub proof fn lemma_run_moves_each_task_as_alone<W>(rs: Seq<MaroonRuntime<W>>, id: u64, i: int)
    requires
        is_run(rs),
        0 <= i < rs.len(),
        rs[i].tasks().contains_key(id),
    ensures
        rs[0].tasks().contains_key(id),
        after_moves(task_of(rs[0], id), rs[0].style(), steps_of(rs, id, i)) == Some(task_of(rs[i], id)),
    decreases i,
{
    if i > 0 {
        let r = rs[i - 1];
        let s = rs[i];
        assert(r.wf() && s.wf());
        lemma_run_step(r, s, id);
        lemma_run_moves_each_task_as_alone(rs, id, i - 1);
        assert(forall|j: int| 0 <= j < i ==> (#[trigger] rs[j]).style() == rs[0].style()) by {
            lemma_run_style(rs, i);
        }
        let k = steps_of(rs, id, i - 1);
        if r.due_operation().task_id.0 == id {
            assert(steps_of(rs, id, i) == k + 1);
            assert(after_moves(task_of(rs[0], id), rs[0].style(), k + 1) == Some(task_of(s, id)));
        } else {
            assert(steps_of(rs, id, i) == k);
        }
    }
}

proof fn lemma_run_style<W>(rs: Seq<MaroonRuntime<W>>, i: int)
    requires
        is_run(rs),
        0 <= i < rs.len(),
    ensures
        forall|j: int| 0 <= j <= i ==> (#[trigger] rs[j]).style() == rs[0].style(),
    decreases i,
{
    if i > 0 {
        lemma_run_style(rs, i - 1);
        assert(rs[i].style() == rs[i - 1].style());
    }
}

} // verus!
