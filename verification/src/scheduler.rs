//! The runtime that owns the scheduled tasks and decides, one step at a
//! time, which task runs next on the logical clock.
//!
//! Every active task has exactly one pending operation: the instant at which
//! its next step is due and the value handed to that step. The operation that
//! runs next is the earliest one; among operations due at the same instant the
//! one queued first runs first.

use vstd::prelude::*;
use std::collections::HashMap;
use crate::logical_time::{LogicalTimeAbsoluteMs, LogicalTimeDeltaMs, MaroonTaskId, NextTaskIdGenerator, order_of};
use vstd::std_specs::cmp::{PartialEqSpecImpl, PartialOrdSpecImpl};
use core::cmp::Ordering;
use crate::task_messages::MessageStyle;
use crate::tasks::{
    MaroonContextValue, MaroonStepResult, MaroonTaskRuntime, MaroonTaskRuntimeDelayedMessage,
    MaroonTaskState, RuntimeModel, StepModel, global_step, largest_divisor_at_most, spec_global_step,
    step_defined, step_is_defined, state_name, state_name_str,
};
use crate::text::{decimal, push_decimal, push_str};

verus! {

broadcast use vstd::std_specs::hash::group_hash_axioms;

/// A pending operation: the task whose step is due, the instant, and the
/// value handed to the step.
#[derive(Clone, Copy, Debug)]
pub struct TimestampedMaroonTask {
    pub scheduled_timestamp: LogicalTimeAbsoluteMs,
    pub task_id: MaroonTaskId,
    pub ctx: MaroonContextValue,
}

impl TimestampedMaroonTask {
    pub fn new(scheduled_timestamp: LogicalTimeAbsoluteMs, task_id: MaroonTaskId) -> (r: Self)
        ensures
            r == (TimestampedMaroonTask { scheduled_timestamp, task_id, ctx: MaroonContextValue::NoValue }),
    {
        Self { scheduled_timestamp, task_id, ctx: MaroonContextValue::NoValue }
    }

    /// An operation that hands a call argument or a return value to the step.
    pub fn new_with_context_value(
        scheduled_timestamp: LogicalTimeAbsoluteMs,
        task_id: MaroonTaskId,
        ctx: MaroonContextValue,
    ) -> (r: Self)
        ensures
            r == (TimestampedMaroonTask { scheduled_timestamp, task_id, ctx }),
    {
        Self { scheduled_timestamp, task_id, ctx }
    }
}

/// Pending operations are alike when they are due at the same instant.
impl PartialEq for TimestampedMaroonTask {
    fn eq(&self, other: &Self) -> (r: bool) {
        self.scheduled_timestamp.0 == other.scheduled_timestamp.0
    }
}

impl PartialEqSpecImpl for TimestampedMaroonTask {
    open spec fn obeys_eq_spec() -> bool {
        true
    }

    open spec fn eq_spec(&self, other: &Self) -> bool {
        self.scheduled_timestamp.0 == other.scheduled_timestamp.0
    }
}

impl Eq for TimestampedMaroonTask {}

/// Pending operations order by instant, the later one first, so that the
/// earliest operation is the greatest.
impl PartialOrd for TimestampedMaroonTask {
    fn partial_cmp(&self, other: &Self) -> (r: Option<Ordering>) {
        let a = other.scheduled_timestamp.0;
        let b = self.scheduled_timestamp.0;
        if a < b {
            Some(Ordering::Less)
        } else if a == b {
            Some(Ordering::Equal)
        } else {
            Some(Ordering::Greater)
        }
    }
}

impl PartialOrdSpecImpl for TimestampedMaroonTask {
    open spec fn obeys_partial_cmp_spec() -> bool {
        true
    }

    open spec fn partial_cmp_spec(&self, other: &Self) -> Option<Ordering> {
        order_of(other.scheduled_timestamp.0, self.scheduled_timestamp.0)
    }
}

/// A scheduled task: its description, its data, where its output goes, and
/// its call stack of states (the top is the state that runs next).
pub struct MaroonTask<W> {
    pub description: String,
    pub runtime: MaroonTaskRuntime,
    pub writer: W,
    pub call_stack: Vec<MaroonTaskState>,
}

/// What one call of `execute_next` did.
#[derive(Debug)]
pub enum ExecutionStep {
    /// No operation is due at the cutoff; nothing changed.
    Idle,
    /// The step of `task_id` due at `timestamp` ran; `text` is what it wrote.
    Ran { task_id: MaroonTaskId, timestamp: LogicalTimeAbsoluteMs, text: Option<String> },
    /// The step due next for `task_id` is not defined (an empty call stack,
    /// data of the wrong kind, or arithmetic out of range); nothing changed.
    Fault { task_id: MaroonTaskId },
}

/// The call stack after a step: the state that ran is popped and the states
/// the step names are pushed (for a call, the return state below the called one).
pub open spec fn next_call_stack(stack: Seq<MaroonTaskState>, res: StepModel) -> Seq<MaroonTaskState> {
    let popped = stack.drop_last();
    match res {
        StepModel::Done => popped,
        StepModel::Next(s) => popped.push(s),
        StepModel::Sleep(_, s) => popped.push(s),
        StepModel::Write(_, s) => popped.push(s),
        StepModel::CallU64(c, _, r) => popped.push(r).push(c),
        StepModel::ReturnU64(_) => popped,
    }
}

/// The operation a step leaves pending for its task, if the task goes on.
pub open spec fn next_operation(ts: u64, id: u64, res: StepModel) -> Option<TimestampedMaroonTask> {
    let op = |t: u64, ctx: MaroonContextValue|
        TimestampedMaroonTask {
            scheduled_timestamp: LogicalTimeAbsoluteMs(t),
            task_id: MaroonTaskId(id),
            ctx,
        };
    match res {
        StepModel::Done => None,
        StepModel::Next(_) => Some(op(ts, MaroonContextValue::NoValue)),
        StepModel::Write(_, _) => Some(op(ts, MaroonContextValue::NoValue)),
        StepModel::Sleep(d, _) => Some(op((ts + d) as u64, MaroonContextValue::NoValue)),
        StepModel::CallU64(_, v, _) => Some(op(ts, MaroonContextValue::U64(v))),
        StepModel::ReturnU64(v) => Some(op(ts, MaroonContextValue::U64(v))),
    }
}

/// A sleep that would move the clock past the 64-bit range.
pub open spec fn sleep_overflows(ts: u64, res: StepModel) -> bool {
    match res {
        StepModel::Sleep(d, _) => ts + d > u64::MAX,
        _ => false,
    }
}

/// `k` is the earliest operation of `pending`, the first one queued among
/// those due at the earliest instant.
pub open spec fn is_earliest(pending: Seq<TimestampedMaroonTask>, k: int) -> bool {
    &&& 0 <= k < pending.len()
    &&& forall|j: int| 0 <= j < pending.len() ==>
        pending[k].scheduled_timestamp.0 <= #[trigger] pending[j].scheduled_timestamp.0
    &&& forall|j: int| 0 <= j < k ==>
        pending[k].scheduled_timestamp.0 < #[trigger] pending[j].scheduled_timestamp.0
}


/// The index of the earliest pending operation (meaningful when there is one).
pub open spec fn earliest_index(pending: Seq<TimestampedMaroonTask>) -> int {
    choose|k: int| is_earliest(pending, k)
}

/// No pending operation is due at `cutoff`.
pub open spec fn none_due(pending: Seq<TimestampedMaroonTask>, cutoff: u64) -> bool {
    forall|j: int| 0 <= j < pending.len() ==> cutoff < #[trigger] pending[j].scheduled_timestamp.0
}


proof fn lemma_earliest_unique(pending: Seq<TimestampedMaroonTask>, k: int, k2: int)
    requires
        is_earliest(pending, k),
    ensures
        earliest_index(pending) == k,
{
    let e = earliest_index(pending);
    assert(is_earliest(pending, e));
    if e < k {
        assert(pending[k].scheduled_timestamp.0 < pending[e].scheduled_timestamp.0);
    } else if k < e {
        assert(pending[e].scheduled_timestamp.0 < pending[k].scheduled_timestamp.0);
    }
}


/// The first index holding the earliest instant of a non-empty queue.
pub open spec fn first_min_index(pending: Seq<TimestampedMaroonTask>) -> int
    decreases pending.len(),
{
    if pending.len() <= 1 {
        0
    } else {
        let k = first_min_index(pending.drop_last());
        if pending.last().scheduled_timestamp.0 < pending[k].scheduled_timestamp.0 {
            pending.len() - 1
        } else {
            k
        }
    }
}

proof fn lemma_first_min_index(pending: Seq<TimestampedMaroonTask>)
    requires
        pending.len() > 0,
    ensures
        is_earliest(pending, first_min_index(pending)),
    decreases pending.len(),
{
    if pending.len() > 1 {
        let init = pending.drop_last();
        lemma_first_min_index(init);
        let k = first_min_index(init);
        assert forall|j: int| 0 <= j < init.len() implies #[trigger] init[j] == pending[j] by {}
        assert(init[k] == pending[k]);
        let m = first_min_index(pending);
        assert forall|j: int| 0 <= j < pending.len() implies
            pending[m].scheduled_timestamp.0 <= #[trigger] pending[j].scheduled_timestamp.0 by {
            if j < init.len() {
                assert(init[j] == pending[j]);
            }
        }
        assert forall|j: int| 0 <= j < m implies
            pending[m].scheduled_timestamp.0 < #[trigger] pending[j].scheduled_timestamp.0 by {
            if j < init.len() {
                assert(init[j] == pending[j]);
            }
        }
    }
}

/// A non-empty queue has an earliest operation.
pub proof fn lemma_earliest_exists(pending: Seq<TimestampedMaroonTask>)
    requires
        pending.len() > 0,
    ensures
        is_earliest(pending, earliest_index(pending)),
{
    lemma_first_min_index(pending);
    lemma_earliest_unique(pending, first_min_index(pending), 0);
}

/// The names of the states of a call stack, bottom first, separated by commas.
pub open spec fn state_list(s: Seq<MaroonTaskState>) -> Seq<char>
    decreases s.len(),
{
    if s.len() == 0 {
        Seq::empty()
    } else if s.len() == 1 {
        state_name(s[0])
    } else {
        state_list(s.drop_last()) + ", "@ + state_name(s.last())
    }
}

/// The names of a call stack split anywhere are the names of its two parts
/// joined by a comma: every state of the stack is named, in order, and
/// neighbours are separated by `", "`.
pub proof fn lemma_state_list_concat(s: Seq<MaroonTaskState>, t: Seq<MaroonTaskState>)
    requires
        s.len() > 0,
        t.len() > 0,
    ensures
        state_list(s + t) == state_list(s) + ", "@ + state_list(t),
    decreases t.len(),
{
    assert((s + t).drop_last() =~= s + t.drop_last());
    assert((s + t).last() == t.last());
    if t.len() == 1 {
        assert(s + t.drop_last() =~= s);
    } else {
        lemma_state_list_concat(s, t.drop_last());
        assert(state_list(s + t) =~= state_list(s) + ", "@ + state_list(t));
    }
}

/// A stack of one state is named by that state alone, and the empty stack
/// by nothing.
pub proof fn lemma_state_list_single(a: MaroonTaskState)
    ensures
        state_list(seq![a]) == state_name(a),
        state_list(Seq::<MaroonTaskState>::empty()) == Seq::<char>::empty(),
{
}

/// A call stack as shown in the list of active tasks: its states in brackets.
pub open spec fn stack_text(s: Seq<MaroonTaskState>) -> Seq<char> {
    "["@ + state_list(s) + "]"@
}

/// The line of the list of active tasks that shows task `id`.
pub open spec fn task_line<W>(id: u64, t: MaroonTask<W>) -> Seq<char> {
    "Task ID: "@ + decimal(id as nat) + ", Description: "@ + t.description@ + ", Stack: "@
        + stack_text(t.call_stack@) + "\n"@
}

/// The lines that show the tasks `ids`, in that order.
pub open spec fn task_lines<W>(ids: Seq<u64>, tasks: Map<u64, MaroonTask<W>>) -> Seq<char>
    decreases ids.len(),
{
    if ids.len() == 0 {
        Seq::empty()
    } else {
        task_lines(ids.drop_last(), tasks) + task_line(ids.last(), tasks[ids.last()])
    }
}

/// Appends the states of a call stack in brackets.
fn push_stack_text(out: &mut String, stack: &Vec<MaroonTaskState>)
    ensures
        final(out)@ == old(out)@ + stack_text(stack@),
{
    push_str(out, "[");
    let n = stack.len();
    let mut i: usize = 0;
    while i < n
        invariant
            n == stack@.len(),
            0 <= i <= n,
            out@ == old(out)@ + "["@ + state_list(stack@.take(i as int)),
        decreases n - i,
    {
        let ghost before = out@;
        if i > 0 {
            push_str(out, ", ");
        }
        push_str(out, state_name_str(stack[i]));
        proof {
            let t = stack@.take(i + 1);
            assert(t.drop_last() =~= stack@.take(i as int));
            if i == 0 {
                assert(state_list(t) == state_name(t[0]));
            }
            assert(out@ =~= old(out)@ + "["@ + state_list(t));
        }
        i = i + 1;
    }
    push_str(out, "]");
    assert(stack@.take(n as int) =~= stack@);
    assert(out@ =~= old(out)@ + stack_text(stack@));
}

/// Taking one operation out of a queue whose operations belong to distinct
/// tasks: the others keep their order and stay distinct, and none belongs
/// to the task of the one taken out.
proof fn lemma_queue_without(p: Seq<TimestampedMaroonTask>, k: int)
    requires
        0 <= k < p.len(),
        forall|i: int, j: int| 0 <= i < j < p.len() ==> #[trigger] p[i].task_id.0 != #[trigger] p[j].task_id.0,
    ensures
        forall|i: int| 0 <= i < p.len() - 1 ==> #[trigger] p.remove(k)[i] == p[if i < k { i } else { i + 1 }],
        forall|i: int| 0 <= i < p.len() - 1 ==> #[trigger] p.remove(k)[i].task_id.0 != p[k].task_id.0,
        forall|i: int, j: int| 0 <= i < j < p.len() - 1 ==>
            #[trigger] p.remove(k)[i].task_id.0 != #[trigger] p.remove(k)[j].task_id.0,
{
    let rem = p.remove(k);
    assert forall|i: int| 0 <= i < p.len() - 1 implies #[trigger] rem[i].task_id.0 != p[k].task_id.0 by {
        if i < k { assert(rem[i] == p[i]); } else { assert(rem[i] == p[i + 1]); }
    }
    assert forall|i: int, j: int| 0 <= i < j < p.len() - 1 implies
        #[trigger] rem[i].task_id.0 != #[trigger] rem[j].task_id.0 by {
        let pi = if i < k { i } else { i + 1 };
        let pj = if j < k { j } else { j + 1 };
        assert(rem[i] == p[pi] && rem[j] == p[pj]);
    }
}

/// The task scheduler: the identifier generator, the pending operations in
/// the order they were queued, and the active tasks by identifier.
pub struct MaroonRuntime<W> {
    task_id_generator: NextTaskIdGenerator,
    pending_operations: Vec<TimestampedMaroonTask>,
    active_tasks: HashMap<u64, MaroonTask<W>>,
    style: MessageStyle,
}

impl<W> MaroonRuntime<W> {
    pub closed spec fn pending(&self) -> Seq<TimestampedMaroonTask> {
        self.pending_operations@
    }

    pub closed spec fn tasks(&self) -> Map<u64, MaroonTask<W>> {
        self.active_tasks@
    }

    pub closed spec fn next_id(&self) -> u64 {
        self.task_id_generator.upcoming()
    }

    pub closed spec fn style(&self) -> MessageStyle {
        self.style
    }


    /// The pending operation that runs next.
    pub open spec fn due_operation(&self) -> TimestampedMaroonTask {
        self.pending()[earliest_index(self.pending())]
    }

    /// The step the due operation runs, given that its task has a state to run.
    pub open spec fn due_step(&self) -> (RuntimeModel, StepModel) {
        let op = self.due_operation();
        let task = self.tasks()[op.task_id.0];
        spec_global_step(task.call_stack@.last(), task.runtime@, op.ctx, self.style())
    }

    /// The due operation cannot run: its task has no state, the step is not
    /// defined on the task's data, or it would sleep past the end of the clock.
    pub open spec fn due_step_faults(&self) -> bool {
        let op = self.due_operation();
        let task = self.tasks()[op.task_id.0];
        ||| task.call_stack@.len() == 0
        ||| !step_defined(task.call_stack@.last(), task.runtime@, op.ctx)
        ||| sleep_overflows(op.scheduled_timestamp.0, self.due_step().1)
    }

    /// `new` is this runtime after the due step ran.
    pub open spec fn after_due_step(&self, new: &Self) -> bool {
        let k = earliest_index(self.pending());
        let op = self.due_operation();
        let id = op.task_id.0;
        let task = self.tasks()[id];
        let (rt, res) = self.due_step();
        &&& new.pending() == match next_operation(op.scheduled_timestamp.0, id, res) {
            Some(o) => self.pending().remove(k).push(o),
            None => self.pending().remove(k),
        }
        &&& if res is Done {
            new.tasks() == self.tasks().remove(id)
        } else {
            &&& new.tasks() == self.tasks().insert(id, new.tasks()[id])
            &&& new.tasks()[id].description == task.description
            &&& new.tasks()[id].writer == task.writer
            &&& new.tasks()[id].runtime@ == rt
            &&& new.tasks()[id].call_stack@ == next_call_stack(task.call_stack@, res)
        }
    }

    /// Every active task has exactly one pending operation and every pending
    /// operation belongs to an active task; identifiers in use are below the
    /// next one to be handed out.
    pub closed spec fn wf(&self) -> bool {
        &&& forall|i: int| 0 <= i < self.pending_operations@.len() ==>
            self.active_tasks@.contains_key(#[trigger] self.pending_operations@[i].task_id.0)
        &&& forall|i: int, j: int| 0 <= i < j < self.pending_operations@.len() ==>
            #[trigger] self.pending_operations@[i].task_id.0 != #[trigger] self.pending_operations@[j].task_id.0
        &&& forall|id: u64| #[trigger] self.active_tasks@.contains_key(id) ==>
            exists|i: int| 0 <= i < self.pending_operations@.len() && self.pending_operations@[i].task_id.0 == id
        &&& forall|id: u64| #[trigger] self.active_tasks@.contains_key(id) ==> id < self.task_id_generator.upcoming()
    }

    /// An empty runtime whose tasks write in the given style.
    pub fn new(style: MessageStyle) -> (r: Self)
        ensures
            r.wf(),
            r.pending() == Seq::<TimestampedMaroonTask>::empty(),
            r.tasks() == Map::<u64, MaroonTask<W>>::empty(),
            r.next_id() == 1,
            r.style() == style,
    {
        Self {
            task_id_generator: NextTaskIdGenerator::new(),
            pending_operations: Vec::new(),
            active_tasks: HashMap::new(),
            style,
        }
    }

    /// Adds a task that starts in `state` at `scheduled_timestamp` and returns
    /// its identifier.
    pub fn schedule(
        &mut self,
        writer: W,
        state: MaroonTaskState,
        runtime: MaroonTaskRuntime,
        scheduled_timestamp: LogicalTimeAbsoluteMs,
        task_description: String,
    ) -> (task_id: MaroonTaskId)
        requires
            old(self).wf(),
            old(self).next_id() < u64::MAX,
        ensures
            final(self).wf(),
            task_id.0 == old(self).next_id(),
            !old(self).tasks().contains_key(task_id.0),
            final(self).next_id() == old(self).next_id() + 1,
            final(self).style() == old(self).style(),
            final(self).pending() == old(self).pending().push(
                TimestampedMaroonTask {
                    scheduled_timestamp,
                    task_id,
                    ctx: MaroonContextValue::NoValue,
                },
            ),
            final(self).tasks() == old(self).tasks().insert(task_id.0, final(self).tasks()[task_id.0]),
            final(self).tasks()[task_id.0].description == task_description,
            final(self).tasks()[task_id.0].runtime == runtime,
            final(self).tasks()[task_id.0].writer == writer,
            final(self).tasks()[task_id.0].call_stack@ == seq![state],
    {
        let task_id = self.task_id_generator.next_task_id();
        let mut call_stack: Vec<MaroonTaskState> = Vec::new();
        call_stack.push(state);
        self.active_tasks.insert(
            task_id.0,
            MaroonTask { description: task_description, runtime, writer, call_stack },
        );
        self.pending_operations.push(TimestampedMaroonTask::new(scheduled_timestamp, task_id));
        proof {
            let p = self.pending_operations@;
            let n = p.len() - 1;
            assert(p[n].task_id.0 == task_id.0);
            assert forall|id: u64| #[trigger] self.active_tasks@.contains_key(id) implies
                exists|i: int| 0 <= i < p.len() && p[i].task_id.0 == id by {
                if id != task_id.0 {
                    let i = choose|i: int| 0 <= i < old(self).pending_operations@.len()
                        && old(self).pending_operations@[i].task_id.0 == id;
                    assert(p[i] == old(self).pending_operations@[i]);
                }
            }
        }
        task_id
    }



    /// After a step has run, no operation is left pending earlier than the
    /// instant of that step: the logical clock never goes backwards.
    pub proof fn lemma_step_leaves_nothing_earlier(&self, new: &Self)
        requires
            self.wf(),
            self.pending().len() > 0,
            !self.due_step_faults(),
            self.after_due_step(new),
        ensures
            forall|j: int| 0 <= j < new.pending().len() ==>
                self.due_operation().scheduled_timestamp.0 <= #[trigger] new.pending()[j].scheduled_timestamp.0,
    {
        lemma_earliest_exists(self.pending());
        let k = earliest_index(self.pending());
        let p = self.pending();
        let rem = p.remove(k);
        let t = self.due_operation().scheduled_timestamp.0;
        assert forall|j: int| 0 <= j < new.pending().len() implies
            t <= #[trigger] new.pending()[j].scheduled_timestamp.0 by {
            if j < rem.len() {
                assert(new.pending()[j] == rem[j]);
                if j < k { assert(rem[j] == p[j]); } else { assert(rem[j] == p[j + 1]); }
            }
        }
    }

    /// The operation that runs next belongs to an active task.
    pub proof fn lemma_due_task_is_active(&self)
        requires
            self.wf(),
            self.pending().len() > 0,
        ensures
            self.tasks().contains_key(self.due_operation().task_id.0),
    {
        lemma_earliest_exists(self.pending());
        let k = earliest_index(self.pending());
        assert(self.active_tasks@.contains_key(self.pending_operations@[k].task_id.0));
    }

    /// The position of the pending operation of task `id`.
    pub open spec fn op_index(&self, id: u64) -> int {
        choose|i: int| 0 <= i < self.pending().len() && self.pending()[i].task_id.0 == id
    }

    /// Every active task has exactly one pending operation, and every pending
    /// operation belongs to an active task.
    pub proof fn lemma_one_operation_per_task(&self, id: u64)
        requires
            self.wf(),
        ensures
            self.tasks().contains_key(id) ==> {
                &&& 0 <= self.op_index(id) < self.pending().len()
                &&& self.pending()[self.op_index(id)].task_id.0 == id
                &&& forall|j: int| 0 <= j < self.pending().len() && #[trigger] self.pending()[j].task_id.0 == id
                    ==> j == self.op_index(id)
            },
            forall|j: int| 0 <= j < self.pending().len() ==> self.tasks().contains_key(#[trigger] self.pending()[j].task_id.0),
    {
        if self.tasks().contains_key(id) {
            assert(self.active_tasks@.contains_key(id));
            let i = self.op_index(id);
            assert forall|j: int| 0 <= j < self.pending().len() && #[trigger] self.pending()[j].task_id.0 == id
                implies j == i by {
                if j < i {
                    assert(self.pending_operations@[j].task_id.0 != self.pending_operations@[i].task_id.0);
                } else if i < j {
                    assert(self.pending_operations@[i].task_id.0 != self.pending_operations@[j].task_id.0);
                }
            }
        }
        assert forall|j: int| 0 <= j < self.pending().len() implies self.tasks().contains_key(#[trigger] self.pending()[j].task_id.0) by {
            assert(self.active_tasks@.contains_key(self.pending_operations@[j].task_id.0));
        }
    }

    /// Steps run in time order: the step after a step is due no earlier.
    pub proof fn lemma_steps_run_in_time_order(&self, next: &Self)
        requires
            self.wf(),
            self.pending().len() > 0,
            !self.due_step_faults(),
            self.after_due_step(next),
            next.pending().len() > 0,
        ensures
            self.due_operation().scheduled_timestamp.0 <= next.due_operation().scheduled_timestamp.0,
    {
        self.lemma_step_leaves_nothing_earlier(next);
        lemma_earliest_exists(next.pending());
    }

    /// Runs the earliest pending operation if it is due at `cutoff`, and says
    /// what happened. A step that cannot run leaves the runtime unchanged.
    #[verifier::spinoff_prover]
    pub fn execute_next(&mut self, cutoff: LogicalTimeAbsoluteMs) -> (step: ExecutionStep)
        requires
            old(self).wf(),
        ensures
            final(self).wf(),
            final(self).next_id() == old(self).next_id(),
            final(self).style() == old(self).style(),
            step is Idle <==> none_due(old(self).pending(), cutoff.0),
            !(step is Ran) ==> final(self).pending() == old(self).pending() && final(self).tasks() == old(self).tasks(),
            !(step is Idle) ==> {
                &&& is_earliest(old(self).pending(), earliest_index(old(self).pending()))
                &&& old(self).due_operation().scheduled_timestamp.0 <= cutoff.0
            },
            step matches ExecutionStep::Fault { task_id } ==> {
                &&& task_id == old(self).due_operation().task_id
                &&& old(self).due_step_faults()
            },
            step matches ExecutionStep::Ran { task_id, timestamp, text } ==> {
                &&& task_id == old(self).due_operation().task_id
                &&& timestamp == old(self).due_operation().scheduled_timestamp
                &&& !old(self).due_step_faults()
                &&& old(self).after_due_step(&*final(self))
                &&& match old(self).due_step().1 {
                    StepModel::Write(t, _) => text is Some && text->0@ == t,
                    _ => text is None,
                }
            },
    {
        let n = self.pending_operations.len();
        if n == 0 {
            return ExecutionStep::Idle;
        }
        let mut k: usize = 0;
        let mut i: usize = 1;
        while i < n
            invariant
                n == self.pending_operations@.len(),
                0 <= k < i <= n,
                forall|j: int| 0 <= j < i ==>
                    self.pending_operations@[k as int].scheduled_timestamp.0
                        <= #[trigger] self.pending_operations@[j].scheduled_timestamp.0,
                forall|j: int| 0 <= j < k ==>
                    self.pending_operations@[k as int].scheduled_timestamp.0
                        < #[trigger] self.pending_operations@[j].scheduled_timestamp.0,
            decreases n - i,
        {
            if self.pending_operations[i].scheduled_timestamp.0 < self.pending_operations[k].scheduled_timestamp.0 {
                k = i;
            }
            i = i + 1;
        }
        proof {
            assert(is_earliest(self.pending_operations@, k as int));
            lemma_earliest_unique(self.pending_operations@, k as int, earliest_index(self.pending_operations@));
        }
        let op = self.pending_operations[k];
        if op.scheduled_timestamp.0 > cutoff.0 {
            return ExecutionStep::Idle;
        }
        let id = op.task_id.0;
        let ts = op.scheduled_timestamp.0;
        let (state, mut runtime) = match self.active_tasks.get(&id) {
            Some(task) => {
                let len = task.call_stack.len();
                if len == 0 {
                    return ExecutionStep::Fault { task_id: op.task_id };
                }
                let state = task.call_stack[len - 1];
                if !step_is_defined(state, &task.runtime, op.ctx) {
                    return ExecutionStep::Fault { task_id: op.task_id };
                }
                (state, task.runtime.duplicate())
            },
            None => {
                proof { assert(self.active_tasks@.contains_key(self.pending_operations@[k as int].task_id.0)); }
                return ExecutionStep::Idle;
            },
        };
        let ghost old_task = self.active_tasks@[id];
        let res = global_step(state, &mut runtime, op.ctx, self.style);
        let ghost res_model = res@;
        let ghost rt_model = runtime@;
        let overflow = match &res {
            MaroonStepResult::Sleep(d, _) => ts > u64::MAX - d.0,
            _ => false,
        };
        if overflow {
            return ExecutionStep::Fault { task_id: op.task_id };
        }
        let ghost old_pending = self.pending_operations@;
        let ghost old_tasks = self.active_tasks@;
        self.pending_operations.remove(k);
        let mut task = match self.active_tasks.remove(&id) {
            Some(task) => task,
            None => {
                proof { assert(false); }
                return ExecutionStep::Idle;
            },
        };
        assert(task == old_task);
        task.runtime = runtime;
        task.call_stack.pop();
        assert(task.call_stack@ == old_task.call_stack@.drop_last());
        let (text, done) = match res {
            MaroonStepResult::Done => (None, true),
            MaroonStepResult::Next(s) => {
                task.call_stack.push(s);
                self.pending_operations.push(TimestampedMaroonTask::new(op.scheduled_timestamp, op.task_id));
                (None, false)
            },
            MaroonStepResult::Sleep(d, s) => {
                task.call_stack.push(s);
                let at = op.scheduled_timestamp + d;
                self.pending_operations.push(TimestampedMaroonTask::new(at, op.task_id));
                (None, false)
            },
            MaroonStepResult::Write(t, s) => {
                task.call_stack.push(s);
                self.pending_operations.push(TimestampedMaroonTask::new(op.scheduled_timestamp, op.task_id));
                (Some(t), false)
            },
            MaroonStepResult::CallU64(c, v, r) => {
                task.call_stack.push(r);
                task.call_stack.push(c);
                self.pending_operations.push(
                    TimestampedMaroonTask::new_with_context_value(
                        op.scheduled_timestamp,
                        op.task_id,
                        MaroonContextValue::U64(v),
                    ),
                );
                (None, false)
            },
            MaroonStepResult::ReturnU64(v) => {
                self.pending_operations.push(
                    TimestampedMaroonTask::new_with_context_value(
                        op.scheduled_timestamp,
                        op.task_id,
                        MaroonContextValue::U64(v),
                    ),
                );
                (None, false)
            },
        };
        if !done {
            self.active_tasks.insert(id, task);
        }
        proof {
            let p = old_pending;
            let q = self.pending_operations@;
            let rem = p.remove(k as int);
            assert(done <==> res_model is Done);
            assert(q == match next_operation(ts, id, res_model) {
                Some(o) => rem.push(o),
                None => rem,
            });
            lemma_queue_without(p, k as int);
            assert forall|i: int| 0 <= i < q.len() implies
                self.active_tasks@.contains_key(#[trigger] q[i].task_id.0) by {
                if i < rem.len() {
                    let pi = if i < k { i } else { i + 1 };
                    assert(q[i] == rem[i]);
                    assert(rem[i] == p[pi]);
                    assert(old_tasks.contains_key(p[pi].task_id.0));
                    assert(rem[i].task_id.0 != id);
                    if done {
                        assert(self.active_tasks@ == old_tasks.remove(id));
                    } else {
                        assert(self.active_tasks@ == old_tasks.insert(id, self.active_tasks@[id]));
                    }
                } else {
                    assert(!done);
                    assert(q[i].task_id.0 == id);
                    assert(self.active_tasks@ == old_tasks.insert(id, self.active_tasks@[id]));
                }
            }
            assert forall|i: int, j: int| 0 <= i < j < q.len() implies
                #[trigger] q[i].task_id.0 != #[trigger] q[j].task_id.0 by {
                assert(q[i] == rem[i]);
                if j < rem.len() {
                    assert(q[j] == rem[j]);
                }
            }
            assert(old(self).due_operation() == op);
            assert(old_task == old(self).tasks()[id]);
            assert(old(self).due_step() == (rt_model, res_model));
            assert(!old(self).due_step_faults());
            if !done {
                assert(self.active_tasks@ == old_tasks.insert(id, self.active_tasks@[id]));
                assert(self.active_tasks@[id].description == old_task.description);
                assert(self.active_tasks@[id].writer == old_task.writer);
                assert(self.active_tasks@[id].runtime@ == rt_model);
                assert(self.active_tasks@[id].call_stack@ == next_call_stack(old_task.call_stack@, res_model));
            } else {
                assert(self.active_tasks@ == old_tasks.remove(id));
            }
            assert(old(self).after_due_step(&*self));
            assert forall|x: u64| #[trigger] self.active_tasks@.contains_key(x) implies
                exists|i: int| 0 <= i < q.len() && q[i].task_id.0 == x by {
                if x == id {
                    assert(q[q.len() - 1].task_id.0 == id);
                } else {
                    assert(old_tasks.contains_key(x));
                    let i0 = choose|i: int| 0 <= i < p.len() && p[i].task_id.0 == x;
                    assert(i0 != k);
                    let i1 = if i0 < k { i0 } else { i0 - 1 };
                    assert(rem[i1] == p[i0]);
                    assert(q[i1] == rem[i1]);
                }
            }
        }
        ExecutionStep::Ran { task_id: op.task_id, timestamp: op.scheduled_timestamp, text }
    }


    /// Where the output of a task goes, if the task is active.
    pub fn writer_of(&self, task_id: MaroonTaskId) -> (w: Option<&W>)
        ensures
            match w {
                Some(w) => self.tasks().contains_key(task_id.0) && *w == self.tasks()[task_id.0].writer,
                None => !self.tasks().contains_key(task_id.0),
            },
    {
        match self.active_tasks.get(&task_id.0) {
            Some(task) => Some(&task.writer),
            None => None,
        }
    }

    /// The number of active tasks.
    pub fn active_task_count(&self) -> (n: usize)
        ensures
            n == self.tasks().len(),
    {
        self.active_tasks.len()
    }

    /// Whether no further task can be scheduled because the identifiers are used up.
    pub fn ids_exhausted(&self) -> (b: bool)
        ensures
            b == (self.next_id() == u64::MAX),
    {
        self.task_id_generator.is_exhausted()
    }

    /// The list of active tasks: a header line, then one line per task with
    /// its identifier, description and call stack, in an order this
    /// statement leaves open; a single line saying so when there is none.
    pub fn describe_active_tasks(&self) -> (r: String)
        requires
            self.wf(),
        ensures
            self.tasks().len() == 0 ==> r@ == "No active tasks\n"@,
            self.tasks().len() > 0 ==> exists|ids: Seq<u64>|
                ids.no_duplicates() && ids.to_set() == self.tasks().dom()
                    && r@ == "Active tasks:\n"@ + task_lines(ids, self.tasks()),
    {
        let mut out = String::from_str("Active tasks:\n");
        let n = self.pending_operations.len();
        let ghost p = self.pending_operations@;
        let ghost mut ids: Seq<u64> = Seq::empty();
        let mut i: usize = 0;
        while i < n
            invariant
                self.wf(),
                n == p.len(),
                p == self.pending_operations@,
                0 <= i <= n,
                ids.len() == i,
                forall|j: int| 0 <= j < i ==> #[trigger] ids[j] == p[j].task_id.0,
                out@ == "Active tasks:\n"@ + task_lines(ids, self.active_tasks@),
            decreases n - i,
        {
            let id = self.pending_operations[i].task_id.0;
            assert(self.active_tasks@.contains_key(p[i as int].task_id.0));
            let task = self.active_tasks.get(&id).unwrap();
            push_str(&mut out, "Task ID: ");
            push_decimal(&mut out, id);
            push_str(&mut out, ", Description: ");
            push_str(&mut out, task.description.as_str());
            push_str(&mut out, ", Stack: ");
            push_stack_text(&mut out, &task.call_stack);
            push_str(&mut out, "\n");
            proof {
                let nids = ids.push(id);
                assert(nids.drop_last() =~= ids);
                assert(out@ =~= "Active tasks:\n"@ + task_lines(nids, self.active_tasks@));
                ids = nids;
            }
            i = i + 1;
        }
        proof {
            assert forall|x: int, y: int| 0 <= x < ids.len() && 0 <= y < ids.len() && x != y implies
                ids[x] != ids[y] by {
                if x < y {
                    assert(p[x].task_id.0 != p[y].task_id.0);
                } else {
                    assert(p[y].task_id.0 != p[x].task_id.0);
                }
            }
            assert forall|id: u64| ids.to_set().contains(id) <==> self.tasks().dom().contains(id) by {
                if self.tasks().dom().contains(id) {
                    assert(self.active_tasks@.contains_key(id));
                    let j = choose|j: int| 0 <= j < p.len() && p[j].task_id.0 == id;
                    assert(ids[j] == id);
                }
                if ids.to_set().contains(id) {
                    let j = choose|j: int| 0 <= j < ids.len() && ids[j] == id;
                    assert(self.active_tasks@.contains_key(p[j].task_id.0));
                }
            }
            assert(ids.to_set() =~= self.tasks().dom());
            ids.unique_seq_to_set();
        }
        if n == 0 {
            String::from_str("No active tasks\n")
        } else {
            out
        }
    }
}

/// One step of a drain at `cutoff`: the earliest pending operation of `r`
/// was due, its step ran without fault, and `s` is the runtime after it.
pub open spec fn drain_step<W>(r: MaroonRuntime<W>, s: MaroonRuntime<W>, cutoff: u64) -> bool {
    &&& r.wf()
    &&& s.wf()
    &&& r.pending().len() > 0
    &&& r.due_operation().scheduled_timestamp.0 <= cutoff
    &&& !r.due_step_faults()
    &&& r.after_due_step(&s)
}

/// The step that `r` runs next ends task `id`.
pub open spec fn finishes_task<W>(r: MaroonRuntime<W>, id: u64) -> bool {
    r.due_operation().task_id.0 == id && r.due_step().1 is Done
}

proof fn lemma_drain_times<W>(rs: Seq<MaroonRuntime<W>>, cutoff: u64, i: int, j: int)
    requires
        forall|k: int| 0 <= k < rs.len() - 1 ==> drain_step(#[trigger] rs[k], rs[k + 1], cutoff),
        0 <= i <= j < rs.len() - 1,
    ensures
        rs[i].due_operation().scheduled_timestamp.0 <= rs[j].due_operation().scheduled_timestamp.0,
    decreases j - i,
{
    if i < j {
        lemma_drain_times(rs, cutoff, i, j - 1);
        assert(drain_step(rs[j - 1], rs[j], cutoff));
        assert(drain_step(rs[j], rs[j + 1], cutoff));
        rs[j - 1].lemma_steps_run_in_time_order(&rs[j]);
    }
}

proof fn lemma_drain_tasks<W>(rs: Seq<MaroonRuntime<W>>, cutoff: u64, k: int)
    requires
        forall|i: int| 0 <= i < rs.len() - 1 ==> drain_step(#[trigger] rs[i], rs[i + 1], cutoff),
        0 <= k < rs.len(),
    ensures
        forall|id: u64| #[trigger] rs[k].tasks().contains_key(id) <==> (rs[0].tasks().contains_key(id)
            && !exists|i: int| 0 <= i < k && #[trigger] finishes_task(rs[i], id)),
    decreases k,
{
    if k > 0 {
        lemma_drain_tasks(rs, cutoff, k - 1);
        let r = rs[k - 1];
        assert(drain_step(r, rs[k], cutoff));
        r.lemma_due_task_is_active();
        let d = r.due_operation().task_id.0;
        assert forall|id: u64| #[trigger] rs[k].tasks().contains_key(id) <==> (rs[0].tasks().contains_key(id)
            && !exists|i: int| 0 <= i < k && #[trigger] finishes_task(rs[i], id)) by {
            if exists|i: int| 0 <= i < k - 1 && #[trigger] finishes_task(rs[i], id) {
                let i = choose|i: int| 0 <= i < k - 1 && #[trigger] finishes_task(rs[i], id);
                assert(0 <= i < k && finishes_task(rs[i], id));
            }
            if finishes_task(r, id) {
                assert(0 <= k - 1 < k && finishes_task(rs[k - 1], id));
            }
            if exists|i: int| 0 <= i < k && #[trigger] finishes_task(rs[i], id) {
                let i = choose|i: int| 0 <= i < k && #[trigger] finishes_task(rs[i], id);
                if i < k - 1 {
                    assert(0 <= i < k - 1 && finishes_task(rs[i], id));
                }
            }
            if id != d {
                assert(!finishes_task(r, id));
            }
        }
    }
}

/// A drain of the runtime at `cutoff`: run the due steps one after another
/// until none is due. Along such a run (none of whose steps faults), the
/// steps run in time order and none later than the cutoff; what is left
/// pending at the end is due after the cutoff; and a task is still active at
/// the end exactly when it was active at the start and none of the steps
/// ended it.
pub proof fn lemma_drain<W>(rs: Seq<MaroonRuntime<W>>, cutoff: u64)
    requires
        rs.len() >= 1,
        forall|i: int| 0 <= i < rs.len() - 1 ==> drain_step(#[trigger] rs[i], rs[i + 1], cutoff),
        none_due(rs.last().pending(), cutoff),
    ensures
        forall|i: int, j: int| 0 <= i <= j < rs.len() - 1 ==>
            #[trigger] rs[i].due_operation().scheduled_timestamp.0 <= #[trigger] rs[j].due_operation().scheduled_timestamp.0
            <= cutoff,
        forall|j: int| 0 <= j < rs.last().pending().len() ==>
            cutoff < #[trigger] rs.last().pending()[j].scheduled_timestamp.0,
        forall|id: u64| #[trigger] rs.last().tasks().contains_key(id) <==> (rs[0].tasks().contains_key(id)
            && !exists|i: int| 0 <= i < rs.len() - 1 && #[trigger] finishes_task(rs[i], id)),
{
    assert forall|i: int, j: int| 0 <= i <= j < rs.len() - 1 implies
        #[trigger] rs[i].due_operation().scheduled_timestamp.0 <= #[trigger] rs[j].due_operation().scheduled_timestamp.0
            <= cutoff by {
        lemma_drain_times(rs, cutoff, i, j);
        assert(drain_step(rs[j], rs[j + 1], cutoff));
    }
    lemma_drain_tasks(rs, cutoff, rs.len() - 1);
}


} // verus!
