use maroon::maroon_vm::{
    Expression, Function, Locals, MaroonVM, Operands, Operation, OperationData, Program, StackEntry, StackValue,
    State, VmError, VmStep,
};

fn var(name: &str) -> Expression {
    Expression::Var { var: name.to_string() }
}

fn konst(value: u64) -> Expression {
    Expression::Const { value }
}

fn operands(items: Vec<Expression>) -> Operands {
    let mut out = Operands::End;
    for e in items.into_iter().rev() {
        out = Operands::Next(Box::new(e), Box::new(out));
    }
    out
}

fn op(op_type: &str, data: OperationData) -> Operation {
    Operation { op_type: op_type.to_string(), data }
}

fn state(name: &str, local_vars: usize, operations: Vec<Operation>) -> State {
    State { name: name.to_string(), local_vars, operations }
}

fn st(name: &str) -> StackEntry {
    StackEntry::State { state: name.to_string() }
}

/// The factorial program of the bytecode design.
fn factorial_program() -> Program {
    let states = vec![
        state(
            "FactorialEntry",
            1,
            vec![op(
                "push_stack",
                OperationData::PushStack {
                    entries: vec![
                        StackEntry::Value { value: StackValue::FactorialInput { input: var("n") } },
                        StackEntry::Retrn { retrn: "FactorialDone".to_string() },
                        StackEntry::Value { value: StackValue::FactorialArgument { arg: var("n") } },
                        st("FactorialRecursiveCall"),
                    ],
                },
            )],
        ),
        state(
            "FactorialRecursiveCall",
            1,
            vec![op(
                "write",
                OperationData::Write { text: "f({n})".to_string(), next_state: "FactorialRecursionPostWrite".to_string() },
            )],
        ),
        state(
            "FactorialRecursionPostWrite",
            1,
            vec![op(
                "sleep",
                OperationData::Sleep {
                    ms: Expression::Mul { mul: operands(vec![var("n"), konst(50)]) },
                    next_state: "FactorialRecursionPostSleep".to_string(),
                },
            )],
        ),
        state(
            "FactorialRecursionPostSleep",
            1,
            vec![op(
                "conditional",
                OperationData::Conditional {
                    condition: Expression::Le { le: operands(vec![var("n"), konst(1)]) },
                    then: vec![op("return", OperationData::Return { value: konst(1) })],
                    else_ops: vec![op(
                        "push_stack",
                        OperationData::PushStack {
                            entries: vec![
                                StackEntry::Retrn { retrn: "FactorialRecursionPostRecursiveCall".to_string() },
                                StackEntry::Value {
                                    value: StackValue::FactorialArgument {
                                        arg: Expression::Sub { sub: operands(vec![var("n"), konst(1)]) },
                                    },
                                },
                                st("FactorialRecursiveCall"),
                            ],
                        },
                    )],
                },
            )],
        ),
        state(
            "FactorialRecursionPostRecursiveCall",
            2,
            vec![op(
                "return",
                OperationData::Return { value: Expression::Mul { mul: operands(vec![var("n"), var("result")]) } },
            )],
        ),
        state("FactorialDone", 2, vec![op("done", OperationData::Done {})]),
    ];
    Program {
        version: "1.0".to_string(),
        functions: vec![("factorial".to_string(), Function { states })],
        entry_point: "factorial".to_string(),
    }
}

/// Runs the machine to the end, collecting the lines it writes and the
/// total time it slept.
fn run(vm: &mut MaroonVM) -> (Vec<String>, u64) {
    let mut lines = Vec::new();
    let mut slept = 0;
    for _ in 0..10_000 {
        match vm.step() {
            VmStep::Halted | VmStep::StateNotFound => break,
            VmStep::Continued => {}
            VmStep::Wrote(line) => lines.push(line),
            VmStep::Slept(ms) => slept += ms,
            VmStep::Finished(line) => {
                if let Some(l) = line {
                    lines.push(l);
                }
                break;
            }
            VmStep::Fault => panic!("the machine faulted"),
        }
    }
    (lines, slept)
}

#[test]
fn factorial_of_five_from_bytecode() {
    let mut vm = MaroonVM::new(factorial_program());
    assert!(vm.start(5).is_ok());
    let (lines, slept) = run(&mut vm);
    assert_eq!(lines, vec!["0ms: f(5)", "250ms: f(4)", "450ms: f(3)", "600ms: f(2)", "700ms: f(1)", "750ms: 5!=120"]);
    assert_eq!(slept, 750);
    assert_eq!(vm.current_time(), 750);
}

#[test]
fn factorial_of_one_from_bytecode() {
    let mut vm = MaroonVM::new(factorial_program());
    assert!(vm.start(1).is_ok());
    let (lines, _) = run(&mut vm);
    assert_eq!(lines, vec!["0ms: f(1)", "50ms: 1!=1"]);
}

#[test]
fn a_missing_entry_point_is_refused() {
    let mut p = factorial_program();
    p.entry_point = "fibonacci".to_string();
    let mut vm = MaroonVM::new(p);
    assert!(matches!(vm.start(3), Err(VmError::EntryPointNotFound)));
}

#[test]
fn expressions_evaluate_over_the_local_variables() {
    let mut vm = MaroonVM::new(factorial_program());
    assert_eq!(vm.locals(), Locals { n: None, result: None });
    assert!(vm.start(7).is_ok());
    assert_eq!(vm.locals(), Locals { n: Some(7), result: None });
    let e = Expression::Mul { mul: operands(vec![var("n"), konst(50)]) };
    assert_eq!(vm.evaluate_expression(&e), 350);
    assert_eq!(vm.try_evaluate_expression(&Expression::Le { le: operands(vec![var("n"), konst(7)]) }), Some(1));
    assert_eq!(vm.try_evaluate_expression(&Expression::Le { le: operands(vec![var("n"), konst(6)]) }), Some(0));
    assert_eq!(vm.try_evaluate_expression(&Expression::Sub { sub: operands(vec![konst(3), var("n")]) }), None);
    // A variable without a value reads as zero.
    assert_eq!(vm.try_evaluate_expression(&var("result")), Some(0));
    assert_eq!(vm.try_evaluate_expression(&Expression::Mul { mul: operands(vec![konst(2)]) }), None);
    assert_eq!(vm.evaluate_stack_value(&StackValue::FactorialInput { input: var("n") }), 7);
}

#[test]
fn text_interpolation_fills_known_variables() {
    let mut vm = MaroonVM::new(factorial_program());
    assert_eq!(vm.interpolate_text("f({n}) = {result}"), "f({n}) = {result}");
    assert!(vm.start(4).is_ok());
    assert_eq!(vm.interpolate_text("f({n}) = {result}"), "f(4) = {result}");
}

#[test]
fn an_empty_stack_halts() {
    let mut vm = MaroonVM::new(factorial_program());
    assert!(vm.start(2).is_ok());
    let _ = run(&mut vm);
    // After the program is done, nothing is left to run.
    let mut vm2 = MaroonVM::new(factorial_program());
    assert!(vm2.start(0).is_ok());
    let (lines, _) = run(&mut vm2);
    assert_eq!(lines, vec!["0ms: f(0)", "0ms: 0!=1"]);
}

#[test]
fn a_state_that_is_not_defined_is_reported() {
    let p = Program {
        version: "1.0".to_string(),
        functions: vec![("main".to_string(), Function { states: vec![] })],
        entry_point: "main".to_string(),
    };
    let mut vm = MaroonVM::new(p);
    assert!(vm.start(1).is_ok());
    assert!(matches!(vm.step(), VmStep::StateNotFound));
}

#[test]
fn a_value_where_a_state_belongs_is_a_fault() {
    let states = vec![state(
        "FactorialEntry",
        1,
        vec![op(
            "push_stack",
            OperationData::PushStack {
                entries: vec![StackEntry::Value { value: StackValue::FactorialInput { input: konst(3) } }],
            },
        )],
    )];
    let p = Program {
        version: "1.0".to_string(),
        functions: vec![("f".to_string(), Function { states })],
        entry_point: "f".to_string(),
    };
    let mut vm = MaroonVM::new(p);
    assert!(vm.start(1).is_ok());
    assert!(matches!(vm.step(), VmStep::Continued));
    assert!(matches!(vm.step(), VmStep::Fault));
}

#[test]
fn operations_of_an_unknown_type_are_skipped() {
    let states = vec![
        state(
            "FactorialEntry",
            1,
            vec![
                op("log", OperationData::Done {}),
                op("write", OperationData::Write { text: "n={n}".to_string(), next_state: "End".to_string() }),
            ],
        ),
        state("End", 1, vec![op("done", OperationData::Done {})]),
    ];
    let p = Program {
        version: "1.0".to_string(),
        functions: vec![("f".to_string(), Function { states })],
        entry_point: "f".to_string(),
    };
    let mut vm = MaroonVM::new(p);
    assert!(vm.start(9).is_ok());
    assert!(matches!(vm.step(), VmStep::Wrote(ref l) if l == "0ms: n=9"));
    // One value is left for `End`, so the final line is not written.
    assert!(matches!(vm.step(), VmStep::Finished(None)));
}
