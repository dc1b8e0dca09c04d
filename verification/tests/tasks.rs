use maroon::logical_time::{LogicalTimeAbsoluteMs, LogicalTimeDeltaMs, MaroonTaskId, NextTaskIdGenerator};
use maroon::task_messages::{
    format_delayed_message, format_divisor_found, format_divisors_done, format_factorial_result,
    format_fibonacci_result, format_fibonacci_step, format_intermediate_factorial_result, MessageStyle,
};
use maroon::task_requests::{delayed_message_request, divisors_request, factorial_request, fibonacci_request, sum_text};
use maroon::tasks::{
    global_step, state_name_str, MaroonContextValue, MaroonStepResult, MaroonTaskRuntime, MaroonTaskRuntimeDivisors,
    MaroonTaskRuntimeFactorial, MaroonTaskState,
};

#[test]
fn logical_time_arithmetic() {
    let t = LogicalTimeAbsoluteMs::from_millis(100) + LogicalTimeDeltaMs::from_millis(25);
    assert_eq!(t.as_millis(), 125);
    assert_eq!(LogicalTimeDeltaMs::from(7u64).as_millis(), 7);
    assert_eq!(LogicalTimeAbsoluteMs::from(9u64).as_millis(), 9);
    assert_eq!(MaroonTaskId::from(3u64).as_u64(), 3);
    assert_eq!(MaroonTaskId::from_u64(4).as_u64(), 4);
}

#[test]
fn task_ids_count_up_from_one() {
    let mut g = NextTaskIdGenerator::new();
    assert_eq!(g.next_task_id().as_u64(), 1);
    assert_eq!(g.next_task_id().as_u64(), 2);
    assert!(!g.is_exhausted());
}

#[test]
fn messages_in_both_wordings() {
    assert_eq!(format_delayed_message(MessageStyle::Full, 5, "hi"), "Delayed by 5ms: `hi`.");
    assert_eq!(format_delayed_message(MessageStyle::Terse, 5, "hi"), "hi");
    assert_eq!(format_divisor_found(MessageStyle::Full, 12, 6), "A divisor of 12 is 6.");
    assert_eq!(format_divisor_found(MessageStyle::Terse, 12, 6), "12%6==0");
    assert_eq!(format_divisors_done(MessageStyle::Full, 12), "Done for 12!");
    assert_eq!(format_divisors_done(MessageStyle::Terse, 12), "12!");
    assert_eq!(format_fibonacci_step(MessageStyle::Full, 5, 2, 1, 9), "Fibonacci(5) for 2 : 1.");
    assert_eq!(format_fibonacci_step(MessageStyle::Terse, 5, 2, 1, 9), "fib2[5]=1");
    assert_eq!(format_fibonacci_result(MessageStyle::Full, 5, 5), "Fibonacci[5] = 5");
    assert_eq!(format_fibonacci_result(MessageStyle::Terse, 5, 5), "fib5=5");
    assert_eq!(format_intermediate_factorial_result(MessageStyle::Full, 3, 6), "IntermediateFactorial(3) = 6.");
    assert_eq!(format_intermediate_factorial_result(MessageStyle::Terse, 3, 6), "3!:6");
    assert_eq!(format_factorial_result(MessageStyle::Full, 4, 24), "Factorial(4) = 24.");
    assert_eq!(format_factorial_result(MessageStyle::Terse, 4, 24), "4!=24");
}

#[test]
fn requests_describe_their_tasks() {
    let r = delayed_message_request(250, "hello".to_string());
    assert_eq!(r.state, MaroonTaskState::DelayedMessageTaskBegin);
    assert_eq!(r.description, "Delayed by 250ms: `hello`.");
    assert_eq!(divisors_request(12).description, "Divisors of 12");
    assert_eq!(divisors_request(12).state, MaroonTaskState::DivisorsTaskBegin);
    assert_eq!(fibonacci_request(10).description, "Fibonacci number 10");
    assert_eq!(factorial_request(5).description, "Factorial of 5");
    assert_eq!(factorial_request(5).state, MaroonTaskState::FactorialBegin);
    assert_eq!(sum_text(2, 3), "5");
    assert_eq!(sum_text(-7, 3), "-4");
    assert_eq!(state_name_str(MaroonTaskState::FactorialRecursionPostSleep), "FactorialRecursionPostSleep");
}

#[test]
fn one_divisors_step_sleeps_for_the_candidate() {
    let mut rt = MaroonTaskRuntime::Divisors(MaroonTaskRuntimeDivisors { n: 12, i: 12 });
    match global_step(MaroonTaskState::DivisorsTaskBegin, &mut rt, MaroonContextValue::NoValue, MessageStyle::Terse) {
        MaroonStepResult::Next(s) => assert_eq!(s, MaroonTaskState::DivisorsTaskIteration),
        other => panic!("unexpected {other:?}"),
    }
    match global_step(MaroonTaskState::DivisorsTaskIteration, &mut rt, MaroonContextValue::NoValue, MessageStyle::Terse) {
        MaroonStepResult::Sleep(d, s) => {
            assert_eq!(d.as_millis(), 120);
            assert_eq!(s, MaroonTaskState::DivisorsPrintAndMoveOn);
        }
        other => panic!("unexpected {other:?}"),
    }
}

#[test]
fn factorial_recursion_returns_the_product() {
    let mut rt = MaroonTaskRuntime::Factorial(MaroonTaskRuntimeFactorial { n: 3, result: 0, next_multiplier: 0 });
    match global_step(MaroonTaskState::FactorialBegin, &mut rt, MaroonContextValue::NoValue, MessageStyle::Terse) {
        MaroonStepResult::CallU64(call, arg, ret) => {
            assert_eq!(call, MaroonTaskState::FactorialRecursion);
            assert_eq!(arg, 3);
            assert_eq!(ret, MaroonTaskState::FactorialReturn);
        }
        other => panic!("unexpected {other:?}"),
    }
}

#[test]
fn task_ids_and_times_order_like_their_numbers() {
    assert!(MaroonTaskId::from_u64(3) < MaroonTaskId::from_u64(7));
    assert!(MaroonTaskId::from_u64(7) > MaroonTaskId::from_u64(3));
    assert_eq!(MaroonTaskId::from_u64(5), MaroonTaskId::from(5));
    assert!(LogicalTimeAbsoluteMs::from_millis(10) < LogicalTimeAbsoluteMs::from_millis(11));
    assert_eq!(MaroonTaskId::from_u64(2).cmp(&MaroonTaskId::from_u64(9)), std::cmp::Ordering::Less);
}
