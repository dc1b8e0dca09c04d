use maroon::logical_time::{LogicalTimeAbsoluteMs, LogicalTimeDeltaMs, MaroonTaskId};
use maroon::scheduler::{ExecutionStep, MaroonRuntime, TimestampedMaroonTask};
use maroon::task_messages::MessageStyle;
use maroon::task_requests::{divisors_request, fibonacci_request};
use maroon::tasks::{
    MaroonTaskRuntime, MaroonTaskRuntimeDelayedMessage, MaroonTaskRuntimeDivisors, MaroonTaskRuntimeFibonacci,
    MaroonTaskState,
};

/// Runs every step due at `cutoff`, collecting what the tasks write as
/// `"{timestamp}ms:{text}"`.
fn run_until(rt: &mut MaroonRuntime<u32>, cutoff: u64, outputs: &mut Vec<String>) {
    loop {
        match rt.execute_next(LogicalTimeAbsoluteMs::from_millis(cutoff)) {
            ExecutionStep::Idle => break,
            ExecutionStep::Ran { timestamp, text, .. } => {
                if let Some(t) = text {
                    outputs.push(format!("{}ms:{}", timestamp.as_millis(), t));
                }
            }
            ExecutionStep::Fault { task_id } => panic!("task {} faulted", task_id.as_u64()),
        }
    }
}

fn divisors(n: u64) -> MaroonTaskRuntime {
    MaroonTaskRuntime::Divisors(MaroonTaskRuntimeDivisors { n, i: n })
}

fn delayed(ms: u64, message: &str) -> MaroonTaskRuntime {
    MaroonTaskRuntime::DelayedMessage(MaroonTaskRuntimeDelayedMessage {
        delay: LogicalTimeAbsoluteMs::from_millis(ms),
        message: message.to_string(),
    })
}

#[test]
fn test_state_machine_and_execution() {
    let mut rt: MaroonRuntime<u32> = MaroonRuntime::new(MessageStyle::Terse);
    let mut outputs: Vec<String> = Vec::new();
    let at = LogicalTimeAbsoluteMs::from_millis;

    rt.schedule(1, MaroonTaskState::DivisorsTaskBegin, divisors(12), at(0), "Divisors of 12".to_string());
    rt.schedule(1, MaroonTaskState::DelayedMessageTaskBegin, delayed(225, "HI"), at(0), "Hello".to_string());
    rt.schedule(1, MaroonTaskState::DelayedMessageTaskBegin, delayed(75, "BYE"), at(200), "Bye".to_string());

    run_until(&mut rt, 225, &mut outputs);
    let expected1 = vec!["120ms:12%12==0", "180ms:12%6==0", "220ms:12%4==0", "225ms:HI"].join(";");
    assert_eq!(expected1, outputs.join(";"));

    run_until(&mut rt, 1000, &mut outputs);
    let expected2 = vec![
        "120ms:12%12==0",
        "180ms:12%6==0",
        "220ms:12%4==0",
        "225ms:HI",
        "250ms:12%3==0",
        "270ms:12%2==0",
        "275ms:BYE",
        "280ms:12%1==0",
        "280ms:12!",
    ]
    .join(";");
    assert_eq!(expected2, outputs.join(";"));

    outputs.clear();
    rt.schedule(1, MaroonTaskState::DivisorsTaskBegin, divisors(8), at(10_000), "".to_string());
    rt.schedule(1, MaroonTaskState::DivisorsTaskBegin, divisors(9), at(10_001), "".to_string());
    rt.schedule(1, MaroonTaskState::DivisorsTaskBegin, divisors(3), at(10_002), "".to_string());
    run_until(&mut rt, 20_000, &mut outputs);

    let expected3 = vec![
        "10032ms:3%3==0",
        "10042ms:3%1==0",
        "10042ms:3!",
        "10080ms:8%8==0",
        "10091ms:9%9==0",
        "10120ms:8%4==0",
        "10121ms:9%3==0",
        "10131ms:9%1==0",
        "10131ms:9!",
        "10140ms:8%2==0",
        "10150ms:8%1==0",
        "10150ms:8!",
    ]
    .join(";");
    assert_eq!(expected3, outputs.join(";"));
}

#[test]
fn test_fibonacci_task() {
    let mut rt: MaroonRuntime<u32> = MaroonRuntime::new(MessageStyle::Terse);
    let mut outputs: Vec<String> = Vec::new();

    rt.schedule(
        1,
        MaroonTaskState::FibonacciTaskBegin,
        MaroonTaskRuntime::Fibonacci(MaroonTaskRuntimeFibonacci {
            n: 5,
            index: 0,
            a: 0,
            b: 0,
            delay_ms: LogicalTimeDeltaMs::from_millis(0),
        }),
        LogicalTimeAbsoluteMs::from_millis(0),
        "The fifth Fibonacci number".to_string(),
    );

    run_until(&mut rt, 4, &mut outputs);
    assert_eq!("0ms:fib1[5]=1", outputs.join(";"));

    run_until(&mut rt, 10, &mut outputs);
    assert_eq!("0ms:fib1[5]=1;5ms:fib2[5]=1", outputs.join(";"));

    run_until(&mut rt, 100, &mut outputs);
    let expected =
        vec!["0ms:fib1[5]=1", "5ms:fib2[5]=1", "15ms:fib3[5]=2", "30ms:fib4[5]=3", "50ms:fib5=5"].join(";");
    assert_eq!(expected, outputs.join(";"));
}

#[test]
fn an_empty_runtime_is_idle_and_lists_no_tasks() {
    let mut rt: MaroonRuntime<u32> = MaroonRuntime::new(MessageStyle::Full);
    assert!(matches!(rt.execute_next(LogicalTimeAbsoluteMs::from_millis(1_000_000)), ExecutionStep::Idle));
    assert_eq!(rt.describe_active_tasks(), "No active tasks\n");
    assert_eq!(rt.active_task_count(), 0);
    assert!(!rt.ids_exhausted());
}

#[test]
fn identifiers_are_handed_out_from_one() {
    let mut rt: MaroonRuntime<u32> = MaroonRuntime::new(MessageStyle::Full);
    let r = divisors_request(6);
    let a = rt.schedule(7, r.state, r.runtime, LogicalTimeAbsoluteMs::from_millis(0), r.description);
    let r = fibonacci_request(3);
    let b = rt.schedule(8, r.state, r.runtime, LogicalTimeAbsoluteMs::from_millis(0), r.description);
    assert_eq!(a.as_u64(), 1);
    assert_eq!(b.as_u64(), 2);
    assert_eq!(rt.writer_of(MaroonTaskId::from_u64(2)), Some(&8));
    assert_eq!(rt.writer_of(MaroonTaskId::from_u64(3)), None);
    assert_eq!(rt.active_task_count(), 2);
}

#[test]
fn the_task_list_shows_each_task_with_its_stack() {
    let mut rt: MaroonRuntime<u32> = MaroonRuntime::new(MessageStyle::Full);
    let r = divisors_request(6);
    rt.schedule(1, r.state, r.runtime, LogicalTimeAbsoluteMs::from_millis(0), r.description);
    assert_eq!(rt.describe_active_tasks(), "Active tasks:\nTask ID: 1, Description: Divisors of 6, Stack: [DivisorsTaskBegin]\n");
    // One step moves the task on; it is still listed, with its new state.
    assert!(matches!(rt.execute_next(LogicalTimeAbsoluteMs::from_millis(0)), ExecutionStep::Ran { .. }));
    let listing = rt.describe_active_tasks();
    assert!(listing.starts_with("Active tasks:\nTask ID: 1, Description: Divisors of 6, Stack: ["));
}

#[test]
fn full_wording_of_the_divisors_task() {
    let mut rt: MaroonRuntime<u32> = MaroonRuntime::new(MessageStyle::Full);
    let mut outputs: Vec<String> = Vec::new();
    let r = divisors_request(4);
    rt.schedule(1, r.state, r.runtime, LogicalTimeAbsoluteMs::from_millis(0), r.description);
    run_until(&mut rt, 1_000, &mut outputs);
    assert_eq!(
        outputs,
        vec!["40ms:A divisor of 4 is 4.", "60ms:A divisor of 4 is 2.", "70ms:A divisor of 4 is 1.", "70ms:Done for 4!"]
    );
    assert_eq!(rt.active_task_count(), 0);
}

#[test]
fn steps_never_run_before_their_time() {
    let mut rt: MaroonRuntime<u32> = MaroonRuntime::new(MessageStyle::Terse);
    rt.schedule(1, MaroonTaskState::DelayedMessageTaskBegin, delayed(50, "X"), LogicalTimeAbsoluteMs::from_millis(100), "x".to_string());
    assert!(matches!(rt.execute_next(LogicalTimeAbsoluteMs::from_millis(99)), ExecutionStep::Idle));
    let mut outputs = Vec::new();
    run_until(&mut rt, 149, &mut outputs);
    assert!(outputs.is_empty());
    run_until(&mut rt, 150, &mut outputs);
    assert_eq!(outputs, vec!["150ms:X"]);
}

#[test]
fn a_task_with_data_of_the_wrong_kind_faults_and_stays() {
    let mut rt: MaroonRuntime<u32> = MaroonRuntime::new(MessageStyle::Terse);
    rt.schedule(1, MaroonTaskState::FibonacciTaskBegin, divisors(5), LogicalTimeAbsoluteMs::from_millis(0), "bad".to_string());
    match rt.execute_next(LogicalTimeAbsoluteMs::from_millis(0)) {
        ExecutionStep::Fault { task_id } => assert_eq!(task_id.as_u64(), 1),
        _ => panic!("expected a fault"),
    }
    assert_eq!(rt.active_task_count(), 1);
}

#[test]
fn the_factorial_task_ends_with_n_factorial() {
    let mut rt: MaroonRuntime<u32> = MaroonRuntime::new(MessageStyle::Full);
    let mut outputs: Vec<String> = Vec::new();
    let r = maroon::task_requests::factorial_request(5);
    rt.schedule(1, r.state, r.runtime, LogicalTimeAbsoluteMs::from_millis(0), r.description);
    run_until(&mut rt, 100_000, &mut outputs);
    assert_eq!(outputs.last().unwrap(), "500ms:Factorial(5) = 120.");
    assert_eq!(outputs[0], "0ms:IntermediateFactorial(4) = 5.");
    assert_eq!(rt.active_task_count(), 0);
}

#[test]
fn interleaved_tasks_write_in_time_order() {
    let mut rt: MaroonRuntime<u32> = MaroonRuntime::new(MessageStyle::Terse);
    let mut outputs: Vec<String> = Vec::new();
    for (n, at) in [(6u64, 3u64), (10, 0), (7, 5)] {
        let r = divisors_request(n);
        rt.schedule(1, r.state, r.runtime, LogicalTimeAbsoluteMs::from_millis(at), r.description);
    }
    let r = fibonacci_request(6);
    rt.schedule(1, r.state, r.runtime, LogicalTimeAbsoluteMs::from_millis(1), r.description);
    run_until(&mut rt, 1_000_000, &mut outputs);
    let times: Vec<u64> = outputs.iter().map(|o| o.split("ms:").next().unwrap().parse().unwrap()).collect();
    assert!(times.windows(2).all(|w| w[0] <= w[1]));
    // Each task writes what it writes on its own.
    let of_ten: Vec<&String> = outputs.iter().filter(|o| o.contains(":10%") || o.ends_with(":10!")).collect();
    assert_eq!(of_ten.iter().map(|s| s.split("ms:").nth(1).unwrap()).collect::<Vec<_>>(), vec!["10%10==0", "10%5==0", "10%2==0", "10%1==0", "10!"]);
    assert!(outputs.iter().any(|o| o.ends_with(":fib6=8")));
    assert_eq!(rt.active_task_count(), 0);
}

#[test]
fn pending_operations_compare_by_time_alone_earliest_first() {
    let at = LogicalTimeAbsoluteMs::from_millis;
    let a = TimestampedMaroonTask::new(at(5), MaroonTaskId::from_u64(1));
    let b = TimestampedMaroonTask::new(at(5), MaroonTaskId::from_u64(2));
    let later = TimestampedMaroonTask::new(at(9), MaroonTaskId::from_u64(1));
    assert!(a == b);
    assert!(a != later);
    assert!(a > later);
    assert!(later < a);
}

#[test]
fn the_factorial_task_writes_every_partial_product() {
    let mut rt: MaroonRuntime<u32> = MaroonRuntime::new(MessageStyle::Terse);
    let mut outputs: Vec<String> = Vec::new();
    let r = maroon::task_requests::factorial_request(4);
    rt.schedule(1, r.state, r.runtime, LogicalTimeAbsoluteMs::from_millis(0), r.description);
    run_until(&mut rt, 100_000, &mut outputs);
    let texts: Vec<&str> = outputs.iter().map(|o| o.split_once(':').unwrap().1).collect();
    assert_eq!(texts, vec!["3!:4", "2!:12", "1!:24", "4!=24"]);
    let mut one: MaroonRuntime<u32> = MaroonRuntime::new(MessageStyle::Terse);
    let mut single: Vec<String> = Vec::new();
    let r = maroon::task_requests::factorial_request(1);
    one.schedule(1, r.state, r.runtime, LogicalTimeAbsoluteMs::from_millis(0), r.description);
    run_until(&mut one, 100_000, &mut single);
    let texts: Vec<&str> = single.iter().map(|o| o.split_once(':').unwrap().1).collect();
    assert_eq!(texts, vec!["0!:1", "1!=1"]);
}

#[test]
fn a_drain_runs_due_steps_in_order_and_leaves_only_later_ones() {
    let mut rt: MaroonRuntime<u32> = MaroonRuntime::new(MessageStyle::Terse);
    let r = divisors_request(12);
    rt.schedule(1, r.state, r.runtime, LogicalTimeAbsoluteMs::from_millis(0), r.description);
    let r = divisors_request(3);
    rt.schedule(2, r.state, r.runtime, LogicalTimeAbsoluteMs::from_millis(0), r.description);
    let mut times: Vec<u64> = Vec::new();
    loop {
        match rt.execute_next(LogicalTimeAbsoluteMs::from_millis(60)) {
            ExecutionStep::Idle => break,
            ExecutionStep::Ran { timestamp, .. } => times.push(timestamp.as_millis()),
            ExecutionStep::Fault { task_id } => panic!("task {} faulted", task_id.as_u64()),
        }
    }
    assert!(!times.is_empty());
    assert!(times.windows(2).all(|w| w[0] <= w[1]));
    assert!(times.iter().all(|t| *t <= 60));
    assert!(matches!(rt.execute_next(LogicalTimeAbsoluteMs::from_millis(60)), ExecutionStep::Idle));
    assert_eq!(rt.active_task_count(), 1);
}
