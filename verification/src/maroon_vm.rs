//! A stack machine that runs Maroon bytecode: named states whose operations
//! push stack entries, write text, sleep, branch, return values to callers,
//! and finish. The machine keeps two local variables, `n` and `result`, and a
//! logical clock that sleeping advances.
//!
//! Running is split into single steps; each step pops one state and runs its
//! operations, and says what its runner has to do (print a line, wait) and
//! whether the program goes on.

use vstd::prelude::*;
use crate::text::{decimal, decimal_string, digit_char, push_decimal, push_str};
use crate::strings::{
    contains, lacks_char, lemma_replace_all_at_front, lemma_replace_all_skips_prefix, lemma_replace_all_unchanged,
    occurs_at, replace_all, replace_str, str_contains,
};

verus! {

/// The operands of an arithmetic or comparison expression, in order.
pub enum Operands {
    End,
    Next(Box<Expression>, Box<Operands>),
}

/// An expression over the local variables.
pub enum Expression {
    /// The value of a local variable; `0` if it has none.
    Var { var: String },
    Const { value: u64 },
    /// The product of the first two operands.
    Mul { mul: Operands },
    /// The difference of the first two operands.
    Sub { sub: Operands },
    /// `1` if the first operand is at most the second, `0` otherwise.
    Le { le: Operands },
}

pub enum StackValue {
    FactorialInput { input: Expression },
    FactorialArgument { arg: Expression },
    FactorialReturnValue { ret: Expression },
}

pub enum StackEntry {
    /// A state to run.
    State { state: String },
    /// A return address: the state that receives a returned value.
    Retrn { retrn: String },
    Value { value: StackValue },
}

pub enum OperationData {
    PushStack { entries: Vec<StackEntry> },
    Write { text: String, next_state: String },
    Sleep { ms: Expression, next_state: String },
    Return { value: Expression },
    Conditional { condition: Expression, then: Vec<Operation>, else_ops: Vec<Operation> },
    Done {},
}

/// An operation: its kind by name, and its data.
pub struct Operation {
    pub op_type: String,
    pub data: OperationData,
}

pub struct State {
    pub name: String,
    /// How many values the state takes off the stack when it starts.
    pub local_vars: usize,
    pub operations: Vec<Operation>,
}

pub struct Function {
    pub states: Vec<State>,
}

/// A program: its functions by name, and the function it starts in.
pub struct Program {
    pub version: String,
    pub functions: Vec<(String, Function)>,
    pub entry_point: String,
}

/// The local variables of the machine.
#[derive(Clone, Copy, Debug, PartialEq, Eq, Structural)]
pub struct Locals {
    pub n: Option<u64>,
    pub result: Option<u64>,
}

/// The value of a named local variable: `0` where it has none.
pub open spec fn var_value(vars: Locals, name: Seq<char>) -> u64 {
    if name == "n"@ {
        match vars.n { Some(v) => v, None => 0 }
    } else if name == "result"@ {
        match vars.result { Some(v) => v, None => 0 }
    } else {
        0
    }
}

/// The value of an expression; `None` where evaluating it fails: an
/// operator with fewer than two operands, a product above `u64::MAX`, or a
/// difference below zero.
pub open spec fn eval(e: Expression, vars: Locals) -> Option<u64>
    decreases e,
{
    match e {
        Expression::Var { var } => Some(var_value(vars, var@)),
        Expression::Const { value } => Some(value),
        Expression::Mul { mul } => match mul {
            Operands::Next(a, rest) => match *rest {
                Operands::Next(b, _) => match (eval(*a, vars), eval(*b, vars)) {
                    (Some(x), Some(y)) => if x * y <= u64::MAX { Some((x * y) as u64) } else { None },
                    _ => None,
                },
                Operands::End => None,
            },
            Operands::End => None,
        },
        Expression::Sub { sub } => match sub {
            Operands::Next(a, rest) => match *rest {
                Operands::Next(b, _) => match (eval(*a, vars), eval(*b, vars)) {
                    (Some(x), Some(y)) => if x >= y { Some((x - y) as u64) } else { None },
                    _ => None,
                },
                Operands::End => None,
            },
            Operands::End => None,
        },
        Expression::Le { le } => match le {
            Operands::Next(a, rest) => match *rest {
                Operands::Next(b, _) => match (eval(*a, vars), eval(*b, vars)) {
                    (Some(x), Some(y)) => Some(if x <= y { 1u64 } else { 0u64 }),
                    _ => None,
                },
                Operands::End => None,
            },
            Operands::End => None,
        },
    }
}

/// The operand list `[a, b, ...rest]`.
pub open spec fn two_operands(a: Expression, b: Expression, rest: Operands) -> Operands {
    Operands::Next(Box::new(a), Box::new(Operands::Next(Box::new(b), Box::new(rest))))
}

/// The operators compute what they are named after on the values `x` and
/// `y` of their first two operands: the difference `x - y` whenever `x >= y`
/// (so an operand minus itself is zero) and nothing below zero; the product
/// when it fits in 64 bits and nothing above; and for `<=`, one exactly when
/// `x <= y`, zero otherwise.
pub proof fn lemma_eval_arithmetic(a: Expression, b: Expression, rest: Operands, vars: Locals)
    requires
        eval(a, vars) is Some,
        eval(b, vars) is Some,
    ensures
        eval(a, vars)->0 >= eval(b, vars)->0 ==> eval(Expression::Sub { sub: two_operands(a, b, rest) }, vars)
            == Some((eval(a, vars)->0 - eval(b, vars)->0) as u64),
        eval(a, vars)->0 < eval(b, vars)->0 ==> eval(Expression::Sub { sub: two_operands(a, b, rest) }, vars) is None,
        eval(Expression::Sub { sub: two_operands(a, a, rest) }, vars) == Some(0u64),
        eval(Expression::Sub { sub: two_operands(a, b, rest) }, vars) matches Some(d) ==>
            d + eval(b, vars)->0 == eval(a, vars)->0,
        eval(a, vars)->0 * eval(b, vars)->0 <= u64::MAX ==> eval(Expression::Mul { mul: two_operands(a, b, rest) }, vars)
            == Some((eval(a, vars)->0 * eval(b, vars)->0) as u64),
        eval(a, vars)->0 * eval(b, vars)->0 > u64::MAX ==> eval(Expression::Mul { mul: two_operands(a, b, rest) }, vars) is None,
        eval(Expression::Le { le: two_operands(a, b, rest) }, vars) == Some(
            if eval(a, vars)->0 <= eval(b, vars)->0 { 1u64 } else { 0u64 },
        ),
{
}

/// A variable evaluates to its value, and to zero where it has none; a
/// constant to itself.
pub proof fn lemma_eval_leaves(var: String, value: u64, vars: Locals)
    ensures
        var@ == "n"@ && vars.n is Some ==> eval(Expression::Var { var }, vars) == vars.n,
        var@ == "result"@ && vars.result is Some ==> eval(Expression::Var { var }, vars) == vars.result,
        var@ == "n"@ && vars.n is None ==> eval(Expression::Var { var }, vars) == Some(0u64),
        eval(Expression::Const { value }, vars) == Some(value),
{
    reveal_strlit("n");
    reveal_strlit("result");
    assert("n"@.len() != "result"@.len());
}

pub open spec fn stack_value_expression(v: StackValue) -> Expression {
    match v {
        StackValue::FactorialInput { input } => input,
        StackValue::FactorialArgument { arg } => arg,
        StackValue::FactorialReturnValue { ret } => ret,
    }
}

pub open spec fn eval_stack_value(v: StackValue, vars: Locals) -> Option<u64> {
    eval(stack_value_expression(v), vars)
}

/// `text` with `{n}` and `{result}` replaced by the values of the variables
/// that have one.
pub open spec fn interpolate(text: Seq<char>, vars: Locals) -> Seq<char> {
    let t1 = match vars.n {
        Some(v) => replace_all(text, "{n}"@, decimal(v as nat)),
        None => text,
    };
    match vars.result {
        Some(v) => replace_all(t1, "{result}"@, decimal(v as nat)),
        None => t1,
    }
}


proof fn lemma_decimal_lacks_brace(v: nat)
    ensures
        lacks_char(decimal(v), '{'),
    decreases v,
{
    if v >= 10 {
        lemma_decimal_lacks_brace(v / 10);
        assert(lacks_char(decimal(v / 10).push(digit_char(v % 10)), '{'));
    }
}

/// The placeholder `{result}` is not touched by filling in `{n}`.
proof fn lemma_n_skips_result(q: Seq<char>, d: Seq<char>)
    requires
        lacks_char(q, '{'),
    ensures
        replace_all("{result}"@ + q, "{n}"@, d) == "{result}"@ + q,
{
    reveal_strlit("{n}");
    reveal_strlit("{result}");
    let s = "{result}"@ + q;
    assert(!occurs_at(s, "{n}"@, 0)) by {
        if occurs_at(s, "{n}"@, 0) {
            assert(s.subrange(0, 3)[1] == s[1]);
        }
    }
    reveal_strlit("result}");
    let tail = "result}"@ + q;
    assert(s.skip(1) =~= tail);
    lemma_replace_all_unchanged(tail, "{n}"@, d);
    assert(seq![s[0]] + tail =~= s);
}

/// Writing fills in the local variables: in a text made of a placeholder
/// between two stretches without `{`, the placeholder `{n}` becomes the
/// decimal of `n` and `{result}` the decimal of `result` when the variable
/// has a value, and stays as it is when it has none; a text without `{` is
/// written as it is.
pub proof fn lemma_interpolate_fills_placeholders(p: Seq<char>, q: Seq<char>, vars: Locals)
    requires
        lacks_char(p, '{'),
        lacks_char(q, '{'),
    ensures
        interpolate(p, vars) == p,
        vars.n matches Some(v) ==> interpolate(p + "{n}"@ + q, vars) == p + decimal(v as nat) + q,
        vars.n is None ==> interpolate(p + "{n}"@ + q, vars) == p + "{n}"@ + q,
        vars.result matches Some(v) ==> interpolate(p + "{result}"@ + q, vars) == p + decimal(v as nat) + q,
        vars.result is None ==> interpolate(p + "{result}"@ + q, vars) == p + "{result}"@ + q,
{
    reveal_strlit("{n}");
    reveal_strlit("{result}");
    let pn = "{n}"@;
    let pr = "{result}"@;
    assert(pn[0] == '{' && pr[0] == '{' && pn.len() > 0 && pr.len() > 0);
    // a text without braces
    lemma_replace_all_unchanged(p, pn, decimal(vars.n->0 as nat));
    lemma_replace_all_unchanged(p, pr, decimal(vars.result->0 as nat));
    // the placeholder `{n}`
    let tn = p + pn + q;
    assert(tn =~= p + (pn + q));
    if vars.n is Some {
        let d = decimal(vars.n->0 as nat);
        lemma_replace_all_skips_prefix(p, pn + q, pn, d);
        lemma_replace_all_at_front(pn, q, d);
        lemma_replace_all_unchanged(q, pn, d);
        lemma_decimal_lacks_brace(vars.n->0 as nat);
        let t1 = p + d + q;
        assert(replace_all(tn, pn, d) =~= t1);
        assert(lacks_char(t1, '{'));
        lemma_replace_all_unchanged(t1, pr, decimal(vars.result->0 as nat));
    } else {
        assert(lacks_char(p + pn + q, '{') == false) by {
            assert((p + pn + q)[p.len() as int] == '{');
        }
        lemma_replace_all_skips_prefix(p, pn + q, pr, decimal(vars.result->0 as nat));
        assert(!occurs_at(pn + q, pr, 0)) by {
            if occurs_at(pn + q, pr, 0) {
                assert((pn + q).subrange(0, pr.len() as int)[1] == (pn + q)[1]);
                assert((pn + q)[1] == 'n');
            }
        }
        assert((pn + q).skip(1) =~= "n}"@ + q) by { reveal_strlit("n}"); }
        reveal_strlit("n}");
        lemma_replace_all_unchanged("n}"@ + q, pr, decimal(vars.result->0 as nat));
        assert(seq![(pn + q)[0]] + ("n}"@ + q) =~= pn + q);
    }
    // the placeholder `{result}`
    let tr = p + pr + q;
    assert(tr =~= p + (pr + q));
    let t1 = if vars.n is Some {
        let d = decimal(vars.n->0 as nat);
        lemma_replace_all_skips_prefix(p, pr + q, pn, d);
        lemma_n_skips_result(q, d);
        assert(replace_all(tr, pn, d) =~= tr);
        tr
    } else {
        tr
    };
    assert(t1 == tr);
    if vars.result is Some {
        let d = decimal(vars.result->0 as nat);
        lemma_replace_all_skips_prefix(p, pr + q, pr, d);
        lemma_replace_all_at_front(pr, q, d);
        lemma_replace_all_unchanged(q, pr, d);
        assert(replace_all(tr, pr, d) =~= p + d + q);
    }
}

/// The position and values of a machine between steps.
pub struct MachineModel {
    pub stack: Seq<StackEntry>,
    pub vars: Locals,
    pub time: u64,
}

/// What a step tells its runner.
pub enum VmStepModel {
    /// The stack is empty: the program has ended.
    Halted,
    /// The step ran with nothing to show.
    Continued,
    /// Print this line.
    Wrote(Seq<char>),
    /// Wait this many milliseconds (the logical clock has moved on by as much).
    Slept(u64),
    /// The program finished; print the line if there is one.
    Finished(Option<Seq<char>>),
    /// The state on top of the stack is not a state of the entry function.
    StateNotFound,
    /// The step cannot run: the top of the stack is not a state, or an
    /// expression cannot be evaluated, or the clock would overflow.
    Fault,
}

/// Pops `k` entries (fewer where the stack runs out) and keeps the values of
/// those that are values, in the order they were popped; `None` where one of
/// them cannot be evaluated.
pub open spec fn take_locals(stack: Seq<StackEntry>, k: nat, vars: Locals) -> Option<(Seq<StackEntry>, Seq<u64>)>
    decreases k,
{
    if k == 0 || stack.len() == 0 {
        Some((stack, Seq::empty()))
    } else {
        let rest = stack.drop_last();
        match stack.last() {
            StackEntry::Value { value } => match eval_stack_value(value, vars) {
                Some(v) => match take_locals(rest, (k - 1) as nat, vars) {
                    Some((s, vs)) => Some((s, seq![v] + vs)),
                    None => None,
                },
                None => None,
            },
            _ => take_locals(rest, (k - 1) as nat, vars),
        }
    }
}

/// The local variables once a state named `name` has taken `locals`: a
/// state whose name holds `PostRecursiveCall` and that took two values gets
/// `result` and `n` from them; the recursive call state, and any state whose
/// name holds `Post` or `Argument`, gets `n` from the first value it took.
pub open spec fn updated_vars(name: Seq<char>, locals: Seq<u64>, vars: Locals) -> Locals {
    if contains(name, "PostRecursiveCall"@) && locals.len() >= 2 {
        Locals { n: Some(locals[1]), result: Some(locals[0]) }
    } else if (name == "FactorialRecursiveCall"@ || contains(name, "Post"@) || contains(name, "Argument"@))
        && locals.len() > 0 {
        Locals { n: Some(locals[0]), result: vars.result }
    } else {
        vars
    }
}

pub open spec fn argument_entry(v: u64) -> StackEntry {
    StackEntry::Value { value: StackValue::FactorialArgument { arg: Expression::Const { value: v } } }
}

/// The stack with the values a state took pushed back, as arguments, so
/// that the first one taken is on top again.
pub open spec fn restore_locals(stack: Seq<StackEntry>, locals: Seq<u64>) -> Seq<StackEntry> {
    stack + Seq::new(locals.len(), |i: int| argument_entry(locals[locals.len() - 1 - i]))
}

/// Returning `v`: the top entry is popped; where it was a return address,
/// the value and then the address as a state are pushed.
pub open spec fn return_to_caller(stack: Seq<StackEntry>, v: u64) -> Seq<StackEntry> {
    if stack.len() == 0 {
        stack
    } else {
        match stack.last() {
            StackEntry::Retrn { retrn } => stack.drop_last().push(
                StackEntry::Value { value: StackValue::FactorialReturnValue { ret: Expression::Const { value: v } } },
            ).push(StackEntry::State { state: retrn }),
            _ => stack.drop_last(),
        }
    }
}

/// The ops of a conditional branch from `j` on: returns and stack pushes
/// run, other operations are skipped. The result is the stack and whether
/// something was pushed; `None` where an expression cannot be evaluated.
pub open spec fn run_branch(
    ops: Seq<Operation>,
    j: int,
    stack: Seq<StackEntry>,
    locals: Seq<u64>,
    vars: Locals,
    pushed: bool,
) -> Option<(Seq<StackEntry>, bool)>
    decreases ops.len() - j,
{
    if j < 0 || j >= ops.len() {
        Some((stack, pushed))
    } else {
        let op = ops[j];
        if op.op_type@ == "return"@ && op.data is Return {
            match eval(op.data->Return_value, vars) {
                Some(v) => run_branch(ops, j + 1, return_to_caller(stack, v), locals, vars, pushed),
                None => None,
            }
        } else if op.data is PushStack && op.op_type@ == "push_stack"@ {
            run_branch(ops, j + 1, restore_locals(stack, locals) + op.data->entries@, locals, vars, true)
        } else {
            run_branch(ops, j + 1, stack, locals, vars, pushed)
        }
    }
}

/// The result of running the operations of a state from `j` on.
pub enum OpsOutcome {
    Continue(Seq<StackEntry>),
    Wrote(Seq<StackEntry>, Seq<char>),
    Slept(Seq<StackEntry>, u64),
    Done(Seq<StackEntry>, Option<Seq<char>>),
    Fault,
}

/// `{time}ms: {text}`
pub open spec fn timed_line(time: u64, text: Seq<char>) -> Seq<char> {
    decimal(time as nat) + "ms: "@ + text
}

/// Runs the operations of a state from `j` on, in order: a stack push ends
/// the state; a write or a sleep pushes the taken values back and the next
/// state, and ends the state; a conditional runs its branch and ends the
/// state if the branch pushed; a return hands its value to the caller;
/// `done` finishes the program; operations of unknown kind, or whose data
/// is not of their kind, are skipped.
pub open spec fn run_ops(
    ops: Seq<Operation>,
    j: int,
    stack: Seq<StackEntry>,
    locals: Seq<u64>,
    vars: Locals,
    time: u64,
    initial_arg: u64,
) -> OpsOutcome
    decreases ops.len() - j,
{
    if j < 0 || j >= ops.len() {
        OpsOutcome::Continue(stack)
    } else {
        let op = ops[j];
        let kind = op.op_type@;
        let next = run_ops(ops, j + 1, stack, locals, vars, time, initial_arg);
        if kind == "push_stack"@ {
            match op.data {
                OperationData::PushStack { entries } => OpsOutcome::Continue(stack + entries@),
                _ => next,
            }
        } else if kind == "write"@ {
            match op.data {
                OperationData::Write { text, next_state } => OpsOutcome::Wrote(
                    restore_locals(stack, locals).push(StackEntry::State { state: next_state }),
                    timed_line(time, interpolate(text@, vars)),
                ),
                _ => next,
            }
        } else if kind == "sleep"@ {
            match op.data {
                OperationData::Sleep { ms, next_state } => match eval(ms, vars) {
                    Some(d) => if time + d <= u64::MAX {
                        OpsOutcome::Slept(restore_locals(stack, locals).push(StackEntry::State { state: next_state }), d)
                    } else {
                        OpsOutcome::Fault
                    },
                    None => OpsOutcome::Fault,
                },
                _ => next,
            }
        } else if kind == "conditional"@ {
            match op.data {
                OperationData::Conditional { condition, then, else_ops } => match eval(condition, vars) {
                    Some(c) => {
                        let branch = if c != 0 { then@ } else { else_ops@ };
                        match run_branch(branch, 0, stack, locals, vars, false) {
                            Some((s, true)) => OpsOutcome::Continue(s),
                            Some((s, false)) => run_ops(ops, j + 1, s, locals, vars, time, initial_arg),
                            None => OpsOutcome::Fault,
                        }
                    },
                    None => OpsOutcome::Fault,
                },
                _ => next,
            }
        } else if kind == "return"@ {
            match op.data {
                OperationData::Return { value } => match eval(value, vars) {
                    Some(v) => run_ops(ops, j + 1, return_to_caller(stack, v), locals, vars, time, initial_arg),
                    None => OpsOutcome::Fault,
                },
                _ => next,
            }
        } else if kind == "done"@ {
            OpsOutcome::Done(
                stack,
                if locals.len() >= 2 {
                    Some(timed_line(time, decimal(initial_arg as nat) + "!="@ + decimal(locals[0] as nat)))
                } else {
                    None
                },
            )
        } else {
            next
        }
    }
}

/// The first state of `states` named `name`.
pub open spec fn find_state(states: Seq<State>, name: Seq<char>) -> Option<int> {
    if exists|i: int| 0 <= i < states.len() && states[i].name@ == name {
        Some(choose|i: int| 0 <= i < states.len() && states[i].name@ == name
            && forall|k: int| 0 <= k < i ==> states[k].name@ != name)
    } else {
        None
    }
}

/// One step of the machine over the states of its entry function.
pub open spec fn spec_step(states: Seq<State>, m: MachineModel, initial_arg: u64) -> (MachineModel, VmStepModel) {
    if m.stack.len() == 0 {
        (m, VmStepModel::Halted)
    } else {
        let rest = m.stack.drop_last();
        match m.stack.last() {
            StackEntry::State { state: name } => match find_state(states, name@) {
                None => (MachineModel { stack: rest, vars: m.vars, time: m.time }, VmStepModel::StateNotFound),
                Some(idx) => {
                    let st = states[idx];
                    match take_locals(rest, st.local_vars as nat, m.vars) {
                        None => (m, VmStepModel::Fault),
                        Some((s1, locals)) => {
                            let vars = updated_vars(name@, locals, m.vars);
                            match run_ops(st.operations@, 0, s1, locals, vars, m.time, initial_arg) {
                                OpsOutcome::Continue(s) =>
                                    (MachineModel { stack: s, vars, time: m.time }, VmStepModel::Continued),
                                OpsOutcome::Wrote(s, line) =>
                                    (MachineModel { stack: s, vars, time: m.time }, VmStepModel::Wrote(line)),
                                OpsOutcome::Slept(s, d) =>
                                    (MachineModel { stack: s, vars, time: (m.time + d) as u64 }, VmStepModel::Slept(d)),
                                OpsOutcome::Done(s, line) =>
                                    (MachineModel { stack: s, vars, time: m.time }, VmStepModel::Finished(line)),
                                OpsOutcome::Fault => (m, VmStepModel::Fault),
                            }
                        },
                    }
                },
            },
            _ => (m, VmStepModel::Fault),
        }
    }
}


proof fn lemma_run_ops_sleep_fits(
    ops: Seq<Operation>,
    j: int,
    stack: Seq<StackEntry>,
    locals: Seq<u64>,
    vars: Locals,
    time: u64,
    initial_arg: u64,
)
    ensures
        run_ops(ops, j, stack, locals, vars, time, initial_arg) matches OpsOutcome::Slept(_, d) ==> time + d <= u64::MAX,
    decreases ops.len() - j,
{
    if 0 <= j < ops.len() {
        lemma_run_ops_sleep_fits(ops, j + 1, stack, locals, vars, time, initial_arg);
        let op = ops[j];
        match op.data {
            OperationData::Conditional { condition, then, else_ops } => match eval(condition, vars) {
                Some(c) => {
                    let branch = if c != 0 { then@ } else { else_ops@ };
                    match run_branch(branch, 0, stack, locals, vars, false) {
                        Some((s, false)) => lemma_run_ops_sleep_fits(ops, j + 1, s, locals, vars, time, initial_arg),
                        _ => {},
                    }
                },
                None => {},
            },
            OperationData::Return { value } => match eval(value, vars) {
                Some(v) => lemma_run_ops_sleep_fits(ops, j + 1, return_to_caller(stack, v), locals, vars, time, initial_arg),
                None => {},
            },
            _ => {},
        }
    }
}

/// The machine's clock never goes back: a step that sleeps moves it on by
/// exactly the time slept, and any other step leaves it where it was.
pub proof fn lemma_vm_clock_moves_by_sleeps(states: Seq<State>, m: MachineModel, initial_arg: u64)
    ensures
        spec_step(states, m, initial_arg).1 matches VmStepModel::Slept(d)
            ==> spec_step(states, m, initial_arg).0.time == m.time + d,
        !(spec_step(states, m, initial_arg).1 is Slept) ==> spec_step(states, m, initial_arg).0.time == m.time,
{
    if m.stack.len() > 0 {
        let rest = m.stack.drop_last();
        match m.stack.last() {
            StackEntry::State { state: name } => match find_state(states, name@) {
                Some(idx) => {
                    let st = states[idx];
                    match take_locals(rest, st.local_vars as nat, m.vars) {
                        Some((s1, locals)) => {
                            let vars = updated_vars(name@, locals, m.vars);
                            lemma_run_ops_sleep_fits(st.operations@, 0, s1, locals, vars, m.time, initial_arg);
                        },
                        None => {},
                    }
                },
                None => {},
            },
            _ => {},
        }
    }
}

/// Whether the text equals the literal.
fn text_is(text: &String, lit: &str) -> (b: bool)
    ensures
        b == (text@ == lit@),
{
    *text == String::from_str(lit)
}

fn copy_operands(o: &Operands) -> (r: Operands)
    ensures
        r == *o,
    decreases o,
{
    match o {
        Operands::End => Operands::End,
        Operands::Next(a, rest) => Operands::Next(Box::new(copy_expression(a)), Box::new(copy_operands(rest))),
    }
}

fn copy_expression(e: &Expression) -> (r: Expression)
    ensures
        r == *e,
    decreases e,
{
    match e {
        Expression::Var { var } => Expression::Var { var: var.clone() },
        Expression::Const { value } => Expression::Const { value: *value },
        Expression::Mul { mul } => Expression::Mul { mul: copy_operands(mul) },
        Expression::Sub { sub } => Expression::Sub { sub: copy_operands(sub) },
        Expression::Le { le } => Expression::Le { le: copy_operands(le) },
    }
}

fn copy_entry(e: &StackEntry) -> (r: StackEntry)
    ensures
        r == *e,
{
    match e {
        StackEntry::State { state } => StackEntry::State { state: state.clone() },
        StackEntry::Retrn { retrn } => StackEntry::Retrn { retrn: retrn.clone() },
        StackEntry::Value { value } => StackEntry::Value {
            value: match value {
                StackValue::FactorialInput { input } => StackValue::FactorialInput { input: copy_expression(input) },
                StackValue::FactorialArgument { arg } => StackValue::FactorialArgument { arg: copy_expression(arg) },
                StackValue::FactorialReturnValue { ret } => StackValue::FactorialReturnValue { ret: copy_expression(ret) },
            },
        },
    }
}

fn var_lookup(vars: Locals, name: &String) -> (v: u64)
    ensures
        v == var_value(vars, name@),
{
    if text_is(name, "n") {
        match vars.n { Some(v) => v, None => 0 }
    } else if text_is(name, "result") {
        match vars.result { Some(v) => v, None => 0 }
    } else {
        0
    }
}

/// Evaluates the first two operands with `op`; `None` where there are fewer
/// than two or one of them cannot be evaluated.
fn eval_pair(o: &Operands, vars: Locals) -> (r: Option<(u64, u64)>)
    ensures
        r == match *o {
            Operands::Next(a, rest) => match *rest {
                Operands::Next(b, _) => match (eval(*a, vars), eval(*b, vars)) {
                    (Some(x), Some(y)) => Some((x, y)),
                    _ => None,
                },
                Operands::End => None,
            },
            Operands::End => None,
        },
    decreases o, 1nat,
{
    match o {
        Operands::Next(a, rest) => match &**rest {
            Operands::Next(b, _) => {
                let x = eval_expr(a, vars);
                let y = eval_expr(b, vars);
                match (x, y) {
                    (Some(x), Some(y)) => Some((x, y)),
                    _ => None,
                }
            },
            Operands::End => None,
        },
        Operands::End => None,
    }
}

fn eval_expr(e: &Expression, vars: Locals) -> (r: Option<u64>)
    ensures
        r == eval(*e, vars),
    decreases e, 0nat,
{
    match e {
        Expression::Var { var } => Some(var_lookup(vars, var)),
        Expression::Const { value } => Some(*value),
        Expression::Mul { mul } => match eval_pair(mul, vars) {
            Some((x, y)) => if y == 0 || x <= u64::MAX / y {
                proof {
                    if y != 0 {
                        assert((x <= u64::MAX / y) ==> x * y <= u64::MAX) by (nonlinear_arith) requires y != 0;
                    }
                }
                Some(x * y)
            } else {
                proof {
                    assert((x > u64::MAX / y) ==> x * y > u64::MAX) by (nonlinear_arith) requires y != 0;
                }
                None
            },
            None => None,
        },
        Expression::Sub { sub } => match eval_pair(sub, vars) {
            Some((x, y)) => if x >= y { Some(x - y) } else { None },
            None => None,
        },
        Expression::Le { le } => match eval_pair(le, vars) {
            Some((x, y)) => Some(if x <= y { 1u64 } else { 0u64 }),
            None => None,
        },
    }
}


/// What a step tells its runner.
#[derive(Debug)]
pub enum VmStep {
    Halted,
    Continued,
    Wrote(String),
    Slept(u64),
    Finished(Option<String>),
    StateNotFound,
    Fault,
}

impl View for VmStep {
    type V = VmStepModel;

    open spec fn view(&self) -> VmStepModel {
        match self {
            VmStep::Halted => VmStepModel::Halted,
            VmStep::Continued => VmStepModel::Continued,
            VmStep::Wrote(s) => VmStepModel::Wrote(s@),
            VmStep::Slept(d) => VmStepModel::Slept(*d),
            VmStep::Finished(l) => VmStepModel::Finished(match l {
                Some(s) => Some(s@),
                None => None,
            }),
            VmStep::StateNotFound => VmStepModel::StateNotFound,
            VmStep::Fault => VmStepModel::Fault,
        }
    }
}

/// Why a program cannot be started.
#[derive(Clone, Copy, Debug, PartialEq, Eq, Structural)]
pub enum VmError {
    /// The program has no function named by its entry point.
    EntryPointNotFound,
}

/// The first function of `functions` named `name`.
pub open spec fn find_function(functions: Seq<(String, Function)>, name: Seq<char>) -> Option<int> {
    if exists|i: int| 0 <= i < functions.len() && functions[i].0@ == name {
        Some(choose|i: int| 0 <= i < functions.len() && functions[i].0@ == name
            && forall|k: int| 0 <= k < i ==> functions[k].0@ != name)
    } else {
        None
    }
}

/// The machine: its program, the function it runs, its stack, its local
/// variables, its logical clock, and the argument it was started with.
pub struct MaroonVM {
    program: Program,
    entry: usize,
    stack: Vec<StackEntry>,
    vars: Locals,
    current_time: u64,
    initial_arg: u64,
}

impl MaroonVM {
    pub closed spec fn program(&self) -> Program {
        self.program
    }

    pub closed spec fn machine(&self) -> MachineModel {
        MachineModel { stack: self.stack@, vars: self.vars, time: self.current_time }
    }

    pub closed spec fn initial_arg(&self) -> u64 {
        self.initial_arg
    }

    /// The index of the function the machine runs.
    pub closed spec fn entry(&self) -> int {
        self.entry as int
    }

    /// The states of the function the machine runs.
    pub open spec fn states(&self) -> Seq<State> {
        self.program().functions@[self.entry()].1.states@
    }

    pub closed spec fn wf(&self) -> bool {
        self.entry < self.program.functions@.len()
    }

    /// A machine for `program` with an empty stack, no local variables and
    /// the clock at zero; it has not been started.
    pub fn new(program: Program) -> (vm: Self)
        ensures
            vm.program() == program,
            vm.machine() == (MachineModel { stack: Seq::empty(), vars: Locals { n: None, result: None }, time: 0 }),
    {
        MaroonVM {
            program,
            entry: 0,
            stack: Vec::new(),
            vars: Locals { n: None, result: None },
            current_time: 0,
            initial_arg: 0,
        }
    }

    pub fn locals(&self) -> (l: Locals)
        ensures
            l == self.machine().vars,
    {
        self.vars
    }

    pub fn current_time(&self) -> (t: u64)
        ensures
            t == self.machine().time,
    {
        self.current_time
    }

    /// The value of `expr`, or `None` where it cannot be evaluated.
    pub fn try_evaluate_expression(&self, expr: &Expression) -> (r: Option<u64>)
        ensures
            r == eval(*expr, self.machine().vars),
    {
        eval_expr(expr, self.vars)
    }

    /// The value of `expr`, which must be evaluable.
    pub fn evaluate_expression(&self, expr: &Expression) -> (r: u64)
        requires
            eval(*expr, self.machine().vars) is Some,
        ensures
            Some(r) == eval(*expr, self.machine().vars),
    {
        match eval_expr(expr, self.vars) {
            Some(v) => v,
            None => 0,
        }
    }

    /// The value of the expression a stack value holds, which must be evaluable.
    pub fn evaluate_stack_value(&self, value: &StackValue) -> (r: u64)
        requires
            eval_stack_value(*value, self.machine().vars) is Some,
        ensures
            Some(r) == eval_stack_value(*value, self.machine().vars),
    {
        match value {
            StackValue::FactorialInput { input } => self.evaluate_expression(input),
            StackValue::FactorialArgument { arg } => self.evaluate_expression(arg),
            StackValue::FactorialReturnValue { ret } => self.evaluate_expression(ret),
        }
    }


    /// Prepares the machine to run its entry-point function on `initial_arg`:
    /// `n` is set to the argument, and the stack gets the argument as the
    /// input value with the state `FactorialEntry` above it.
    pub fn start(&mut self, initial_arg: u64) -> (r: Result<(), VmError>)
        ensures
            final(self).program() == old(self).program(),
            match find_function(old(self).program().functions@, old(self).program().entry_point@) {
                None => r == Err::<(), VmError>(VmError::EntryPointNotFound) && *final(self) == *old(self),
                Some(i) => {
                    &&& r is Ok
                    &&& final(self).wf()
                    &&& final(self).entry() == i
                    &&& final(self).initial_arg() == initial_arg
                    &&& final(self).machine() == (MachineModel {
                        stack: old(self).machine().stack.push(
                            StackEntry::Value { value: StackValue::FactorialInput { input: Expression::Const { value: initial_arg } } },
                        ).push(StackEntry::State { state: final(self).machine().stack.last()->State_state }),
                        vars: Locals { n: Some(initial_arg), result: old(self).machine().vars.result },
                        time: old(self).machine().time,
                    })
                    &&& final(self).machine().stack.last()->State_state@ == "FactorialEntry"@
                },
            },
    {
        let nf = self.program.functions.len();
        let mut i: usize = 0;
        while i < nf
            invariant
                nf == self.program.functions@.len(),
                0 <= i <= nf,
                *self == *old(self),
                forall|k: int| 0 <= k < i ==> self.program.functions@[k].0@ != self.program.entry_point@,
            decreases nf - i,
        {
            if self.program.functions[i].0 == self.program.entry_point {
                proof {
                    let name = self.program.entry_point@;
                    let fs = self.program.functions@;
                    assert(0 <= i < fs.len() && fs[i as int].0@ == name);
                    let c = choose|c: int| 0 <= c < fs.len() && fs[c].0@ == name
                        && forall|k: int| 0 <= k < c ==> fs[k].0@ != name;
                    if c < i { assert(fs[c].0@ != name); }
                    if c > i { assert(fs[i as int].0@ != name); }
                }
                self.entry = i;
                self.initial_arg = initial_arg;
                self.vars = Locals { n: Some(initial_arg), result: self.vars.result };
                self.stack.push(StackEntry::Value {
                    value: StackValue::FactorialInput { input: Expression::Const { value: initial_arg } },
                });
                let entry_name = String::from_str("FactorialEntry");
                self.stack.push(StackEntry::State { state: entry_name });
                return Ok(());
            }
            i = i + 1;
        }
        Err(VmError::EntryPointNotFound)
    }

    /// Runs one step: pops the state on top of the stack, takes its values
    /// off the stack, updates the local variables, and runs its operations.
    /// After a fault the machine is not to be stepped again; what it holds
    /// then is left unsaid.
#[verifier::spinoff_prover]
    pub fn step(&mut self) -> (r: VmStep)
        requires
            old(self).wf(),
        ensures
            final(self).wf(),
            final(self).program() == old(self).program(),
            final(self).entry() == old(self).entry(),
            final(self).initial_arg() == old(self).initial_arg(),
            r is Fault <==> spec_step(old(self).states(), old(self).machine(), old(self).initial_arg()).1 is Fault,
            !(r is Fault) ==> (final(self).machine(), r@) == spec_step(old(self).states(), old(self).machine(), old(self).initial_arg()),
    {
        let ghost m0 = self.machine();
        let len = self.stack.len();
        if len == 0 {
            return VmStep::Halted;
        }
        let name = match &self.stack[len - 1] {
            StackEntry::State { state } => state.clone(),
            _ => {
                return VmStep::Fault;
            },
        };
        self.stack.pop();
        let states = &self.program.functions[self.entry].1.states;
        let ns = states.len();
        let mut idx: usize = 0;
        while idx < ns
            invariant_except_break
                ns == states@.len(),
                0 <= idx <= ns,
                forall|k: int| 0 <= k < idx ==> states@[k].name@ != name@,
            ensures
                0 <= idx <= ns,
                forall|k: int| 0 <= k < idx ==> states@[k].name@ != name@,
                idx < ns ==> states@[idx as int].name@ == name@,
            decreases ns - idx,
        {
            if states[idx].name == name {
                break;
            }
            idx = idx + 1;
        }
        proof {
            if idx < ns {
                let c = choose|c: int| 0 <= c < states@.len() && states@[c].name@ == name@
                    && forall|k: int| 0 <= k < c ==> states@[k].name@ != name@;
                if c < idx { assert(states@[c].name@ != name@); }
                if c > idx { assert(states@[idx as int].name@ != name@); }
            }
        }
        if idx == ns {
            return VmStep::StateNotFound;
        }
        let state = &states[idx];
        let locals = match take_locals_exec(&mut self.stack, state.local_vars, self.vars) {
            Some(l) => l,
            None => {
                return VmStep::Fault;
            },
        };
        let vars = updated_locals(&name, &locals, self.vars);
        self.vars = vars;
        let outcome = run_ops_exec(&state.operations, &mut self.stack, &locals, vars, self.current_time, self.initial_arg);
        match outcome {
            OpsResult::Continue => VmStep::Continued,
            OpsResult::Wrote(line) => VmStep::Wrote(line),
            OpsResult::Slept(d) => {
                self.current_time = self.current_time + d;
                VmStep::Slept(d)
            },
            OpsResult::Done(line) => VmStep::Finished(line),
            OpsResult::Fault => VmStep::Fault,
        }
    }

    /// `text` with `{n}` and `{result}` replaced by the values of the local
    /// variables that have one.
    pub fn interpolate_text(&self, text: &str) -> (r: String)
        ensures
            r@ == interpolate(text@, self.machine().vars),
    {
        interpolate_with(text, self.vars)
    }
}

fn updated_locals(name: &String, locals: &Vec<u64>, vars: Locals) -> (r: Locals)
    ensures
        r == updated_vars(name@, locals@, vars),
{
    if str_contains(name.as_str(), "PostRecursiveCall") && locals.len() >= 2 {
        Locals { n: Some(locals[1]), result: Some(locals[0]) }
    } else if (text_is(name, "FactorialRecursiveCall") || str_contains(name.as_str(), "Post")
        || str_contains(name.as_str(), "Argument")) && locals.len() > 0 {
        Locals { n: Some(locals[0]), result: vars.result }
    } else {
        vars
    }
}

fn interpolate_with(text: &str, vars: Locals) -> (r: String)
    ensures
        r@ == interpolate(text@, vars),
{
    let t1 = match vars.n {
        Some(v) => {
            let d = decimal_string(v);
            proof { reveal_strlit("{n}"); }
            replace_str(text, "{n}", d.as_str())
        },
        None => String::from_str(text),
    };
    match vars.result {
        Some(v) => {
            let d = decimal_string(v);
            proof { reveal_strlit("{result}"); }
            replace_str(t1.as_str(), "{result}", d.as_str())
        },
        None => t1,
    }
}


fn take_locals_exec(stack: &mut Vec<StackEntry>, k: usize, vars: Locals) -> (r: Option<Vec<u64>>)
    ensures
        match take_locals(old(stack)@, k as nat, vars) {
            Some((s, vs)) => r is Some && r->0@ == vs && final(stack)@ == s,
            None => r is None,
        },
{
    let mut collected: Vec<u64> = Vec::new();
    let mut i: usize = 0;
    while i < k
        invariant_except_break
            0 <= i <= k,
            take_locals(old(stack)@, k as nat, vars) == match take_locals(stack@, (k - i) as nat, vars) {
                Some((s, vs)) => Some((s, collected@ + vs)),
                None => None,
            },
        ensures
            0 <= i <= k,
            i == k || stack@.len() == 0,
            take_locals(old(stack)@, k as nat, vars) == match take_locals(stack@, (k - i) as nat, vars) {
                Some((s, vs)) => Some((s, collected@ + vs)),
                None => None,
            },
        decreases k - i,
    {
        if stack.len() == 0 {
            break;
        }
        let ghost cur = stack@;
        let entry = stack.pop();
        match entry {
            Some(StackEntry::Value { value }) => {
                let e = match &value {
                    StackValue::FactorialInput { input } => input,
                    StackValue::FactorialArgument { arg } => arg,
                    StackValue::FactorialReturnValue { ret } => ret,
                };
                match eval_expr(e, vars) {
                    Some(v) => {
                        let ghost before = collected@;
                        collected.push(v);
                        proof {
                            match take_locals(stack@, (k - i - 1) as nat, vars) {
                                Some((s2, vs2)) => {
                                    assert(collected@ + vs2 =~= before + (seq![v] + vs2));
                                },
                                None => {},
                            }
                        }
                    },
                    None => {
                        return None;
                    },
                }
            },
            _ => {},
        }
        i = i + 1;
    }
    proof {
        assert(i == k || stack@.len() == 0);
        assert(take_locals(stack@, (k - i) as nat, vars) == Some((stack@, Seq::<u64>::empty())));
        assert(collected@ + Seq::<u64>::empty() =~= collected@);
    }
    Some(collected)
}

fn push_restored(stack: &mut Vec<StackEntry>, locals: &Vec<u64>)
    ensures
        final(stack)@ == restore_locals(old(stack)@, locals@),
{
    let n = locals.len();
    let mut i: usize = 0;
    while i < n
        invariant
            n == locals@.len(),
            0 <= i <= n,
            stack@ == old(stack)@ + Seq::new(i as nat, |t: int| argument_entry(locals@[n - 1 - t])),
        decreases n - i,
    {
        let v = locals[n - 1 - i];
        stack.push(StackEntry::Value { value: StackValue::FactorialArgument { arg: Expression::Const { value: v } } });
        i = i + 1;
        assert(stack@ =~= old(stack)@ + Seq::new(i as nat, |t: int| argument_entry(locals@[n - 1 - t])));
    }
    assert(stack@ =~= restore_locals(old(stack)@, locals@));
}

fn push_entries(stack: &mut Vec<StackEntry>, entries: &Vec<StackEntry>)
    ensures
        final(stack)@ == old(stack)@ + entries@,
{
    let n = entries.len();
    let mut i: usize = 0;
    while i < n
        invariant
            n == entries@.len(),
            0 <= i <= n,
            stack@ == old(stack)@ + entries@.take(i as int),
        decreases n - i,
    {
        let e = copy_entry(&entries[i]);
        stack.push(e);
        i = i + 1;
        assert(stack@ =~= old(stack)@ + entries@.take(i as int));
    }
    assert(entries@.take(n as int) =~= entries@);
}

fn return_exec(stack: &mut Vec<StackEntry>, v: u64)
    ensures
        final(stack)@ == return_to_caller(old(stack)@, v),
{
    match stack.pop() {
        Some(StackEntry::Retrn { retrn }) => {
            stack.push(StackEntry::Value {
                value: StackValue::FactorialReturnValue { ret: Expression::Const { value: v } },
            });
            stack.push(StackEntry::State { state: retrn });
        },
        _ => {},
    }
}

fn run_branch_exec(ops: &Vec<Operation>, stack: &mut Vec<StackEntry>, locals: &Vec<u64>, vars: Locals) -> (r: Option<bool>)
    ensures
        match run_branch(ops@, 0, old(stack)@, locals@, vars, false) {
            Some((s, p)) => r == Some(p) && final(stack)@ == s,
            None => r is None,
        },
{
    let mut pushed = false;
    let n = ops.len();
    let mut j: usize = 0;
    while j < n
        invariant
            n == ops@.len(),
            0 <= j <= n,
            run_branch(ops@, 0, old(stack)@, locals@, vars, false) == run_branch(ops@, j as int, stack@, locals@, vars, pushed),
        decreases n - j,
    {
        let op = &ops[j];
        let is_return = text_is(&op.op_type, "return");
        let is_push = text_is(&op.op_type, "push_stack");
        match &op.data {
            OperationData::Return { value } => {
                if is_return {
                    match eval_expr(value, vars) {
                        Some(v) => {
                            return_exec(stack, v);
                        },
                        None => {
                            return None;
                        },
                    }
                }
            },
            OperationData::PushStack { entries } => {
                if is_push {
                    push_restored(stack, locals);
                    push_entries(stack, entries);
                    pushed = true;
                }
            },
            _ => {},
        }
        j = j + 1;
    }
    Some(pushed)
}

/// What running the operations of a state led to.
enum OpsResult {
    Continue,
    Wrote(String),
    Slept(u64),
    Done(Option<String>),
    Fault,
}

fn timed_line_exec(time: u64, text: &str) -> (r: String)
    ensures
        r@ == timed_line(time, text@),
{
    let mut s = String::new();
    push_decimal(&mut s, time);
    push_str(&mut s, "ms: ");
    push_str(&mut s, text);
    assert(s@ =~= timed_line(time, text@));
    s
}

fn run_ops_exec(
    ops: &Vec<Operation>,
    stack: &mut Vec<StackEntry>,
    locals: &Vec<u64>,
    vars: Locals,
    time: u64,
    initial_arg: u64,
) -> (r: OpsResult)
    ensures
        match run_ops(ops@, 0, old(stack)@, locals@, vars, time, initial_arg) {
            OpsOutcome::Continue(s) => r is Continue && final(stack)@ == s,
            OpsOutcome::Wrote(s, line) => r matches OpsResult::Wrote(t) && t@ == line && final(stack)@ == s,
            OpsOutcome::Slept(s, d) => r == OpsResult::Slept(d) && final(stack)@ == s,
            OpsOutcome::Done(s, line) => r matches OpsResult::Done(l) && final(stack)@ == s && match l {
                Some(t) => line == Some(t@),
                None => line is None,
            },
            OpsOutcome::Fault => r is Fault,
        },
        r matches OpsResult::Slept(d) ==> time + d <= u64::MAX,
{
    let n = ops.len();
    let mut j: usize = 0;
    while j < n
        invariant
            n == ops@.len(),
            0 <= j <= n,
            run_ops(ops@, 0, old(stack)@, locals@, vars, time, initial_arg)
                == run_ops(ops@, j as int, stack@, locals@, vars, time, initial_arg),
        decreases n - j,
    {
        let op = &ops[j];
        if text_is(&op.op_type, "push_stack") {
            if let OperationData::PushStack { entries } = &op.data {
                push_entries(stack, entries);
                return OpsResult::Continue;
            }
        } else if text_is(&op.op_type, "write") {
            if let OperationData::Write { text, next_state } = &op.data {
                let line = timed_line_exec(time, interpolate_with(text.as_str(), vars).as_str());
                push_restored(stack, locals);
                stack.push(StackEntry::State { state: next_state.clone() });
                return OpsResult::Wrote(line);
            }
        } else if text_is(&op.op_type, "sleep") {
            if let OperationData::Sleep { ms, next_state } = &op.data {
                match eval_expr(ms, vars) {
                    Some(d) => {
                        if time > u64::MAX - d {
                            return OpsResult::Fault;
                        }
                        push_restored(stack, locals);
                        stack.push(StackEntry::State { state: next_state.clone() });
                        return OpsResult::Slept(d);
                    },
                    None => {
                        return OpsResult::Fault;
                    },
                }
            }
        } else if text_is(&op.op_type, "conditional") {
            if let OperationData::Conditional { condition, then, else_ops } = &op.data {
                match eval_expr(condition, vars) {
                    Some(c) => {
                        let branch = if c != 0 { then } else { else_ops };
                        match run_branch_exec(branch, stack, locals, vars) {
                            Some(true) => {
                                return OpsResult::Continue;
                            },
                            Some(false) => {},
                            None => {
                                return OpsResult::Fault;
                            },
                        }
                    },
                    None => {
                        return OpsResult::Fault;
                    },
                }
            }
        } else if text_is(&op.op_type, "return") {
            if let OperationData::Return { value } = &op.data {
                match eval_expr(value, vars) {
                    Some(v) => {
                        return_exec(stack, v);
                    },
                    None => {
                        return OpsResult::Fault;
                    },
                }
            }
        } else if text_is(&op.op_type, "done") {
            if locals.len() >= 2 {
                let mut tail = String::new();
                push_decimal(&mut tail, initial_arg);
                push_str(&mut tail, "!=");
                push_decimal(&mut tail, locals[0]);
                let line = timed_line_exec(time, tail.as_str());
                proof {
                    assert(tail@ =~= decimal(initial_arg as nat) + "!="@ + decimal(locals@[0] as nat));
                }
                return OpsResult::Done(Some(line));
            }
            return OpsResult::Done(None);
        }
        j = j + 1;
    }
    OpsResult::Continue
}

} // verus!
