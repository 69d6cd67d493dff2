//! Task scheduling for async execution: tasks, external call ids, and the results of
//! resolved external calls.
//!
//! Task 0 is the main task; spawned tasks get the following ids. Every external call
//! gets a fresh call id. A task that awaits an unresolved call blocks on it; resolving
//! the call stores the result and makes the task ready again.
use vstd::prelude::*;
use std::collections::VecDeque;
use crate::collections::{
    CallIdSet, PendingMap, ResolvedMap, TaskMap, WaiterMap, call_set_contains, call_set_contents, call_set_insert,
    call_set_new, pending_map_contents, pending_map_get, pending_map_insert, pending_map_keys, pending_map_new,
    pending_map_remove, resolved_map_contents, resolved_map_insert, resolved_map_keys, resolved_map_new,
    resolved_map_remove, task_map_contents, task_map_get, task_map_insert, task_map_keys, task_map_new,
    task_map_remove, waiter_map_contents, waiter_map_insert, waiter_map_new, waiter_map_remove,
    resolved_map_get, waiter_map_get, waiter_map_keys,
};
use crate::exception::RunError;
use crate::heap::{Heap, HeapData, HeapView, dropped_from, released_once, value_released, same_objects, value_ref_id, values_ref_ids, pairs_ref_ids, collect_value_ref_id, collect_values_ref_ids, collect_pairs_ref_ids};
use crate::value::{ArgValues, HeapId, Value, drop_values};

verus! {

/// The id of an external call.
pub type CallId = u32;

/// The id of a task.
pub type TaskId = u32;

/// Where a task stands.
#[derive(Debug)]
pub enum TaskState {
    /// Ready to run.
    Ready,
    /// Waiting for an external call to resolve.
    BlockedOnCall(CallId),
    /// Waiting for a gather future (on the heap) to complete; holds a reference.
    BlockedOnGather(HeapId),
    /// Finished with a value.
    Completed(Value),
    /// Finished with an error.
    Failed(RunError),
}

/// A saved call frame of a suspended task.
#[derive(Debug)]
pub struct TaskFrame {
    pub function_id: Option<u32>,
    pub ip: usize,
    pub stack_base: usize,
    pub locals_count: u16,
}

/// Whether the pending call `call_id`, if there is one, holds no arguments (as the
/// calls the VM records do).
pub open spec fn holds_no_args(s: &Scheduler, call_id: CallId) -> bool {
    s.pending().contains_key(call_id) ==> s.pending()[call_id].args.positional@.len() == 0
        && s.pending()[call_id].args.kwargs@.len() == 0
}

/// An async task with its own saved execution context.
#[derive(Debug)]
pub struct Task {
    pub id: TaskId,
    pub frames: Vec<TaskFrame>,
    pub stack: Vec<Value>,
    pub exception_stack: Vec<Value>,
    pub instruction_ip: usize,
    /// The coroutine the task runs (a reference the task owns).
    pub coroutine_id: Option<HeapId>,
    /// The gather the task belongs to (a reference the task owns).
    pub gather_id: Option<HeapId>,
    /// The slots of the gather's results that the task fills.
    pub gather_result_indices: Vec<usize>,
    pub state: TaskState,
    /// The call whose resolution made the task ready, until its result is taken.
    pub unblocked_by: Option<CallId>,
}

/// Whether a task state is final.
pub open spec fn is_final(s: TaskState) -> bool {
    s is Completed || s is Failed
}

/// The tasks of the gather a task state waits on (none for another state).
pub open spec fn gathered_by(st: TaskState, heap: HeapView) -> Seq<TaskId> {
    match st {
        TaskState::BlockedOnGather(g) => if heap.live(g) && heap.data(g) is GatherFuture {
            heap.data(g)->GatherFuture_0.task_ids@
        } else {
            Seq::empty()
        },
        _ => Seq::empty(),
    }
}

/// What failing external call `call_id` does when a gather waits on it (and the
/// call holds no arguments): the gather's external calls are all forgotten, its tasks
/// are all removed, and the task awaiting it, if it is still there, has failed with
/// `error`.
pub open spec fn gather_call_failed(s0: Scheduler, heap: HeapView, s1: Scheduler, call_id: CallId, error: RunError) -> bool {
    let gid = s0.waiters()[call_id].0;
    let g = heap.data(gid)->GatherFuture_0;
    s0.pending().contains_key(call_id) && s0.waiters().contains_key(call_id) && holds_no_args(&s0, call_id)
        && heap.live(gid) && heap.data(gid) is GatherFuture ==> {
        &&& forall|k: int| 0 <= k < g.pending_calls@.len() ==> !s1.pending().contains_key(#[trigger] g.pending_calls@[k])
            && !s1.waiters().contains_key(g.pending_calls@[k])
        &&& forall|k: int| 0 <= k < g.task_ids@.len() ==> !s1.tasks().contains_key(#[trigger] g.task_ids@[k])
        &&& match g.waiter {
            Some(w) => s1.tasks().contains_key(w) ==> s1.tasks()[w].state == TaskState::Failed(error),
            None => true,
        }
    }
}

/// Heap `b` is heap `a` after a task state is dropped: the gather it waits on or the
/// value it completed with is released; other states hold nothing.
pub open spec fn state_dropped(a: HeapView, b: HeapView, st: TaskState) -> bool {
    match st {
        TaskState::BlockedOnGather(gid) => released_once(a, b, gid),
        TaskState::Completed(v) => value_released(a, b, v),
        _ => b == a,
    }
}

/// Heap `b` is heap `a` after an optional reference is released.
pub open spec fn id_released(a: HeapView, b: HeapView, id: Option<HeapId>) -> bool {
    match id {
        Some(i) => released_once(a, b, i),
        None => b == a,
    }
}

/// Heap `b` is heap `a` after a task is dropped: its operand stack, then its
/// exception stack, then its state, then its coroutine and gather references.
pub open spec fn task_dropped(a: HeapView, b: HeapView, t: Task) -> bool {
    exists|m1: HeapView, m2: HeapView, m3: HeapView, m4: HeapView|
        #![trigger dropped_from(a, m1, t.stack@, 0), dropped_from(m1, m2, t.exception_stack@, 0), state_dropped(m2, m3, t.state), id_released(m3, m4, t.coroutine_id)]
        dropped_from(a, m1, t.stack@, 0) && dropped_from(m1, m2, t.exception_stack@, 0) && state_dropped(m2, m3, t.state)
            && id_released(m3, m4, t.coroutine_id) && id_released(m4, b, t.gather_id)
}

impl TaskState {
    /// Drops the state, releasing the gather reference or completed value it holds.
    pub fn drop_with_heap(self, heap: &mut Heap)
        requires
            old(heap).wf(),
        ensures
            final(heap).wf(),
            final(heap)@.slots.len() == old(heap)@.slots.len(),
            self is Ready ==> final(heap)@ == old(heap)@,
            state_dropped(old(heap)@, final(heap)@, self),
            crate::heap::room_kept(old(heap)@, final(heap)@),
            crate::heap::only_frees(old(heap)@, final(heap)@),
    {
        match self {
            TaskState::BlockedOnGather(gid) => heap.release(gid),
            TaskState::Completed(v) => v.drop_with_heap(heap),
            _ => {},
        }
    }
}

impl Task {
    /// A new task in the Ready state, with an empty context.
    pub fn new(id: TaskId, coroutine_id: Option<HeapId>, gather_id: Option<HeapId>, gather_result_indices: Vec<usize>) -> (r: Task)
        ensures
            r.id == id,
            r.frames@.len() == 0,
            r.stack@.len() == 0,
            r.exception_stack@.len() == 0,
            r.instruction_ip == 0,
            r.coroutine_id == coroutine_id,
            r.gather_id == gather_id,
            r.gather_result_indices == gather_result_indices,
            r.state is Ready,
            r.unblocked_by is None,
    {
        Task {
            id,
            frames: Vec::new(),
            stack: Vec::new(),
            exception_stack: Vec::new(),
            instruction_ip: 0,
            coroutine_id,
            gather_id,
            gather_result_indices,
            state: TaskState::Ready,
            unblocked_by: None,
        }
    }

    /// Whether the task has completed or failed.
    pub fn is_finished(&self) -> (r: bool)
        ensures
            r == is_final(self.state),
    {
        match self.state {
            TaskState::Completed(_) | TaskState::Failed(_) => true,
            _ => false,
        }
    }

    /// Drops the task, releasing every reference it owns.
    pub fn drop_with_heap(self, heap: &mut Heap)
        requires
            old(heap).wf(),
        ensures
            final(heap).wf(),
            final(heap)@.slots.len() == old(heap)@.slots.len(),
            task_dropped(old(heap)@, final(heap)@, self),
            crate::heap::room_kept(old(heap)@, final(heap)@),
            crate::heap::only_frees(old(heap)@, final(heap)@),
    {
        let ghost t = self;
        let Task { stack, exception_stack, state, coroutine_id, gather_id, .. } = self;
        drop_values(stack, heap);
        let ghost m1 = heap@;
        drop_values(exception_stack, heap);
        let ghost m2 = heap@;
        state.drop_with_heap(heap);
        let ghost m3 = heap@;
        if let Some(c) = coroutine_id {
            heap.release(c);
        }
        let ghost m4 = heap@;
        if let Some(g) = gather_id {
            heap.release(g);
        }
        proof {
            assert(dropped_from(old(heap)@, m1, t.stack@, 0) && dropped_from(m1, m2, t.exception_stack@, 0)
                && state_dropped(m2, m3, t.state) && id_released(m3, m4, t.coroutine_id) && id_released(m4, heap@, t.gather_id));
        }
    }
}

/// An external call awaiting its result: its arguments and the task that made it.
#[derive(Debug)]
pub struct PendingCallData {
    pub args: ArgValues,
    pub creator_task: TaskId,
}

/// The scheduler: tasks, the ready queue, the current task, call id allocation, and
/// the bookkeeping of external calls.
pub struct Scheduler {
    tasks: TaskMap,
    ready_queue: VecDeque<TaskId>,
    current_task: Option<TaskId>,
    next_task_id: u32,
    next_call_id: u32,
    pending_calls: PendingMap,
    resolved: ResolvedMap,
    consumed: CallIdSet,
    gather_waiters: WaiterMap,
}

impl Scheduler {
    /// The tasks by id.
    pub closed spec fn tasks(&self) -> Map<TaskId, Task> {
        task_map_contents(self.tasks)
    }

    /// The ready queue, front first.
    pub closed spec fn queue(&self) -> Seq<TaskId> {
        self.ready_queue@
    }

    /// The task running now.
    pub closed spec fn current(&self) -> Option<TaskId> {
        self.current_task
    }

    /// The id the next spawned task gets.
    pub closed spec fn next_task(&self) -> u32 {
        self.next_task_id
    }

    /// The id the next external call gets.
    pub closed spec fn next_call(&self) -> u32 {
        self.next_call_id
    }

    /// The unresolved external calls by id.
    pub closed spec fn pending(&self) -> Map<CallId, PendingCallData> {
        pending_map_contents(self.pending_calls)
    }

    /// The results of resolved calls not yet awaited.
    pub closed spec fn resolved(&self) -> Map<CallId, Value> {
        resolved_map_contents(self.resolved)
    }

    /// The calls already awaited.
    pub closed spec fn consumed(&self) -> Set<CallId> {
        call_set_contents(self.consumed)
    }

    /// The gathers waiting on external calls, with their result slots.
    pub closed spec fn waiters(&self) -> Map<CallId, (HeapId, Vec<usize>)> {
        waiter_map_contents(self.gather_waiters)
    }

    /// A scheduler with the main task (task 0) current and nothing else.
    pub fn new() -> (r: Scheduler)
        ensures
            r.tasks().dom() == set![0u32],
            r.tasks()[0].id == 0,
            r.tasks()[0].state is Ready,
            r.tasks()[0].unblocked_by is None,
            r.tasks()[0].stack@.len() == 0,
            r.queue().len() == 0,
            r.current() == Some(0u32),
            r.next_task() == 1,
            r.next_call() == 0,
            r.pending().is_empty(),
            r.resolved().is_empty(),
            r.consumed().is_empty(),
            r.waiters().is_empty(),
            r.tasks().dom().finite(),
    {
        let mut tasks = task_map_new();
        let main_task = Task::new(0, None, None, Vec::new());
        task_map_insert(&mut tasks, 0, main_task);
        proof {
            assert(task_map_contents(tasks).dom() =~= set![0u32]);
        }
        Scheduler {
            tasks,
            ready_queue: VecDeque::new(),
            current_task: Some(0),
            next_task_id: 1,
            next_call_id: 0,
            pending_calls: pending_map_new(),
            resolved: resolved_map_new(),
            consumed: call_set_new(),
            gather_waiters: waiter_map_new(),
        }
    }

    /// The task running now (`None` only while switching tasks).
    pub fn current_task_id(&self) -> (r: Option<TaskId>)
        ensures
            r == self.current(),
    {
        self.current_task
    }

    /// The task with id `task_id`.
    pub fn get_task(&self, task_id: TaskId) -> (r: &Task)
        requires
            self.tasks().contains_key(task_id),
        ensures
            *r == self.tasks()[task_id],
    {
        match task_map_get(&self.tasks, task_id) {
            Some(t) => t,
            None => vstd::pervasive::unreached(),
        }
    }

    /// A fresh call id; the counter always moves on, so ids are never reused.
    pub fn allocate_call_id(&mut self) -> (r: CallId)
        requires
            old(self).next_call() < u32::MAX,
        ensures
            r == old(self).next_call(),
            final(self).next_call() == old(self).next_call() + 1,
            final(self).tasks() == old(self).tasks(),
            final(self).queue() == old(self).queue(),
            final(self).current() == old(self).current(),
            final(self).next_task() == old(self).next_task(),
            final(self).pending() == old(self).pending(),
            final(self).resolved() == old(self).resolved(),
            final(self).consumed() == old(self).consumed(),
            final(self).waiters() == old(self).waiters(),
    {
        let id = self.next_call_id;
        self.next_call_id = self.next_call_id + 1;
        id
    }

    /// Records an external call awaiting its result.
    pub fn add_pending_call(&mut self, call_id: CallId, data: PendingCallData)
        ensures
            final(self).pending() == old(self).pending().insert(call_id, data),
            final(self).tasks() == old(self).tasks(),
            final(self).queue() == old(self).queue(),
            final(self).current() == old(self).current(),
            final(self).next_task() == old(self).next_task(),
            final(self).next_call() == old(self).next_call(),
            final(self).resolved() == old(self).resolved(),
            final(self).consumed() == old(self).consumed(),
            final(self).waiters() == old(self).waiters(),
    {
        pending_map_insert(&mut self.pending_calls, call_id, data);
    }

    /// Forgets an external call (its result went to a gather). Its arguments are
    /// dropped.
    pub fn remove_pending_call(&mut self, call_id: CallId, heap: &mut Heap)
        requires
            old(heap).wf(),
        ensures
            final(heap).wf(),
            final(heap)@.slots.len() == old(heap)@.slots.len(),
            final(self).pending() == old(self).pending().remove(call_id),
            final(self).tasks() == old(self).tasks(),
            final(self).queue() == old(self).queue(),
            final(self).current() == old(self).current(),
            final(self).next_task() == old(self).next_task(),
            final(self).next_call() == old(self).next_call(),
            final(self).resolved() == old(self).resolved(),
            final(self).consumed() == old(self).consumed(),
            final(self).waiters() == old(self).waiters(),
            holds_no_args(&old(self), call_id) ==> final(heap)@ == old(heap)@,
            crate::heap::room_kept(old(heap)@, final(heap)@),
    {
        if let Some(data) = pending_map_remove(&mut self.pending_calls, call_id) {
            data.args.drop_with_heap(heap);
        }
    }

    /// Whether a call has already been awaited.
    pub fn is_consumed(&self, call_id: CallId) -> (r: bool)
        ensures
            r == self.consumed().contains(call_id),
    {
        call_set_contains(&self.consumed, call_id)
    }

    /// Records that a call has been awaited.
    pub fn mark_consumed(&mut self, call_id: CallId)
        ensures
            final(self).consumed() == old(self).consumed().insert(call_id),
            final(self).tasks() == old(self).tasks(),
            final(self).queue() == old(self).queue(),
            final(self).current() == old(self).current(),
            final(self).next_task() == old(self).next_task(),
            final(self).next_call() == old(self).next_call(),
            final(self).pending() == old(self).pending(),
            final(self).resolved() == old(self).resolved(),
            final(self).waiters() == old(self).waiters(),
    {
        call_set_insert(&mut self.consumed, call_id);
    }

    /// Records that a gather waits on a call, to fill the given result slots.
    pub fn register_gather_for_call(&mut self, call_id: CallId, gather_id: HeapId, result_indices: Vec<usize>)
        ensures
            final(self).waiters() == old(self).waiters().insert(call_id, (gather_id, result_indices)),
            final(self).tasks() == old(self).tasks(),
            final(self).queue() == old(self).queue(),
            final(self).current() == old(self).current(),
            final(self).next_task() == old(self).next_task(),
            final(self).next_call() == old(self).next_call(),
            final(self).pending() == old(self).pending(),
            final(self).resolved() == old(self).resolved(),
            final(self).consumed() == old(self).consumed(),
    {
        waiter_map_insert(&mut self.gather_waiters, call_id, (gather_id, result_indices));
    }

    /// Removes and returns the gather waiting on a call, if any.
    pub fn take_gather_waiter(&mut self, call_id: CallId) -> (r: Option<(HeapId, Vec<usize>)>)
        ensures
            r == if old(self).waiters().contains_key(call_id) { Some(old(self).waiters()[call_id]) } else { None::<(HeapId, Vec<usize>)> },
            final(self).waiters() == old(self).waiters().remove(call_id),
            final(self).tasks() == old(self).tasks(),
            final(self).queue() == old(self).queue(),
            final(self).current() == old(self).current(),
            final(self).next_task() == old(self).next_task(),
            final(self).next_call() == old(self).next_call(),
            final(self).pending() == old(self).pending(),
            final(self).resolved() == old(self).resolved(),
            final(self).consumed() == old(self).consumed(),
    {
        waiter_map_remove(&mut self.gather_waiters, call_id)
    }

    /// The task that made a pending call, if the call is pending.
    pub fn get_pending_call_creator(&self, call_id: CallId) -> (r: Option<TaskId>)
        ensures
            r == if self.pending().contains_key(call_id) { Some(self.pending()[call_id].creator_task) } else { None::<TaskId> },
    {
        match pending_map_get(&self.pending_calls, call_id) {
            Some(d) => Some(d.creator_task),
            None => None,
        }
    }

    /// Whether a task exists and has failed.
    pub fn is_task_failed(&self, task_id: TaskId) -> (r: bool)
        ensures
            r == (self.tasks().contains_key(task_id) && self.tasks()[task_id].state is Failed),
    {
        match task_map_get(&self.tasks, task_id) {
            Some(t) => match t.state {
                TaskState::Failed(_) => true,
                _ => false,
            },
            None => false,
        }
    }

    /// The ids of all unresolved calls, each once, in no particular order.
    pub fn pending_call_ids(&self) -> (r: Vec<CallId>)
        ensures
            r@.no_duplicates(),
            r@.to_set() == self.pending().dom(),
    {
        pending_map_keys(&self.pending_calls)
    }

    /// Takes the next ready task from the front of the queue.
    pub fn next_ready_task(&mut self) -> (r: Option<TaskId>)
        ensures
            r == if old(self).queue().len() > 0 { Some(old(self).queue()[0]) } else { None::<TaskId> },
            final(self).queue() == if old(self).queue().len() > 0 { old(self).queue().drop_first() } else { old(self).queue() },
            final(self).tasks() == old(self).tasks(),
            final(self).current() == old(self).current(),
            final(self).next_task() == old(self).next_task(),
            final(self).next_call() == old(self).next_call(),
            final(self).pending() == old(self).pending(),
            final(self).resolved() == old(self).resolved(),
            final(self).consumed() == old(self).consumed(),
            final(self).waiters() == old(self).waiters(),
    {
        self.ready_queue.pop_front()
    }

    /// Removes every occurrence of a task from the ready queue, keeping the others in
    /// order.
    pub fn remove_from_ready_queue(&mut self, task_id: TaskId)
        ensures
            final(self).queue() == old(self).queue().filter(|x: TaskId| x != task_id),
            final(self).tasks() == old(self).tasks(),
            final(self).current() == old(self).current(),
            final(self).next_task() == old(self).next_task(),
            final(self).next_call() == old(self).next_call(),
            final(self).pending() == old(self).pending(),
            final(self).resolved() == old(self).resolved(),
            final(self).consumed() == old(self).consumed(),
            final(self).waiters() == old(self).waiters(),
    {
        let mut q: VecDeque<TaskId> = VecDeque::new();
        core::mem::swap(&mut q, &mut self.ready_queue);
        let ghost q0 = q@;
        let mut kept: VecDeque<TaskId> = VecDeque::new();
        let ghost mut i: int = 0;
        while q.len() > 0
            invariant
                0 <= i <= q0.len(),
                q@ == q0.skip(i),
                kept@ == q0.take(i).filter(|x: TaskId| x != task_id),
            decreases q@.len(),
        {
            let x = q.pop_front().unwrap();
            proof {
                assert(q0.take(i + 1).drop_last() == q0.take(i));
                assert(q0.take(i + 1).last() == x);
                reveal(Seq::filter);
                assert(q@ == q0.skip(i + 1));
            }
            if x != task_id {
                kept.push_back(x);
            }
            proof {
                i = i + 1;
            }
        }
        proof {
            assert(q0.take(q0.len() as int) == q0);
        }
        self.ready_queue = kept;
    }

    /// Sets the running task.
    pub fn set_current_task(&mut self, task_id: Option<TaskId>)
        ensures
            final(self).current() == task_id,
            final(self).tasks() == old(self).tasks(),
            final(self).queue() == old(self).queue(),
            final(self).next_task() == old(self).next_task(),
            final(self).next_call() == old(self).next_call(),
            final(self).pending() == old(self).pending(),
            final(self).resolved() == old(self).resolved(),
            final(self).consumed() == old(self).consumed(),
            final(self).waiters() == old(self).waiters(),
    {
        self.current_task = task_id;
    }
}

/// The task after the call it waited on resolved: ready, remembering the call.
pub open spec fn unblocked_task(t: Task, call_id: CallId) -> Task {
    Task { state: TaskState::Ready, unblocked_by: Some(call_id), ..t }
}

/// The task with a new state.
pub open spec fn with_state(t: Task, s: TaskState) -> Task {
    Task { state: s, ..t }
}

impl Scheduler {
    /// The task map is finite.
    pub open spec fn wf(&self) -> bool {
        self.tasks().dom().finite()
    }

    /// Whether two schedulers agree on everything but the tasks and the ready queue.
    pub open spec fn same_calls(&self, other: &Scheduler) -> bool {
        &&& self.current() == other.current()
        &&& self.next_task() == other.next_task()
        &&& self.next_call() == other.next_call()
        &&& self.pending() == other.pending()
        &&& self.resolved() == other.resolved()
        &&& self.consumed() == other.consumed()
        &&& self.waiters() == other.waiters()
    }

    /// Resolves a call with its result: the result is kept until awaited, the call is
    /// no longer pending, and the task that made it, if it still exists and is blocked
    /// on it, becomes ready (remembering the call) and joins the back of the ready
    /// queue.
    pub fn resolve(&mut self, call_id: CallId, value: Value)
        ensures
            final(self).resolved() == old(self).resolved().insert(call_id, value),
            final(self).pending() == old(self).pending().remove(call_id),
            ({
                let tid = old(self).pending()[call_id].creator_task;
                if old(self).pending().contains_key(call_id) && old(self).tasks().contains_key(tid)
                    && old(self).tasks()[tid].state == TaskState::BlockedOnCall(call_id) {
                    &&& final(self).tasks() == old(self).tasks().insert(tid, unblocked_task(old(self).tasks()[tid], call_id))
                    &&& final(self).queue() == old(self).queue().push(tid)
                } else {
                    &&& final(self).tasks() == old(self).tasks()
                    &&& final(self).queue() == old(self).queue()
                }
            }),
            final(self).current() == old(self).current(),
            final(self).next_task() == old(self).next_task(),
            final(self).next_call() == old(self).next_call(),
            final(self).consumed() == old(self).consumed(),
            final(self).waiters() == old(self).waiters(),
            old(self).wf() ==> final(self).wf(),
    {
        let blocked = pending_map_remove(&mut self.pending_calls, call_id);
        resolved_map_insert(&mut self.resolved, call_id, value);
        if let Some(data) = blocked {
            let tid = data.creator_task;
            match task_map_remove(&mut self.tasks, tid) {
                Some(mut t) => {
                    let is_blocked = match t.state {
                        TaskState::BlockedOnCall(c) => c == call_id,
                        _ => false,
                    };
                    if is_blocked {
                        t.state = TaskState::Ready;
                        t.unblocked_by = Some(call_id);
                        task_map_insert(&mut self.tasks, tid, t);
                        self.ready_queue.push_back(tid);
                    } else {
                        task_map_insert(&mut self.tasks, tid, t);
                        proof {
                            assert(task_map_contents(self.tasks) =~= task_map_contents(old(self).tasks));
                        }
                    }
                },
                None => {
                    proof {
                        assert(task_map_contents(self.tasks) =~= task_map_contents(old(self).tasks));
                    }
                },
            }
        }
    }

    /// Takes the result of a resolved call, if there is one.
    pub fn take_resolved(&mut self, call_id: CallId) -> (r: Option<Value>)
        ensures
            r == if old(self).resolved().contains_key(call_id) { Some(old(self).resolved()[call_id]) } else { None::<Value> },
            final(self).resolved() == old(self).resolved().remove(call_id),
            final(self).tasks() == old(self).tasks(),
            final(self).queue() == old(self).queue(),
            final(self).current() == old(self).current(),
            final(self).next_task() == old(self).next_task(),
            final(self).next_call() == old(self).next_call(),
            final(self).pending() == old(self).pending(),
            final(self).consumed() == old(self).consumed(),
            final(self).waiters() == old(self).waiters(),
    {
        resolved_map_remove(&mut self.resolved, call_id)
    }

    /// Takes the result of the call that made a task ready, if any, and forgets the
    /// call.
    pub fn take_resolved_for_task(&mut self, task_id: TaskId) -> (r: Option<Value>)
        requires
            old(self).tasks().contains_key(task_id),
        ensures
            ({
                let t = old(self).tasks()[task_id];
                match t.unblocked_by {
                    Some(c) => {
                        &&& r == if old(self).resolved().contains_key(c) { Some(old(self).resolved()[c]) } else { None::<Value> }
                        &&& final(self).resolved() == old(self).resolved().remove(c)
                        &&& final(self).tasks() == old(self).tasks().insert(task_id, Task { unblocked_by: None, ..t })
                    },
                    None => r is None && final(self).resolved() == old(self).resolved() && final(self).tasks() == old(self).tasks(),
                }
            }),
            final(self).queue() == old(self).queue(),
            final(self).current() == old(self).current(),
            final(self).next_task() == old(self).next_task(),
            final(self).next_call() == old(self).next_call(),
            final(self).pending() == old(self).pending(),
            final(self).consumed() == old(self).consumed(),
            final(self).waiters() == old(self).waiters(),
            old(self).wf() ==> final(self).wf(),
    {
        let mut t = match task_map_remove(&mut self.tasks, task_id) {
            Some(t) => t,
            None => vstd::pervasive::unreached(),
        };
        match t.unblocked_by {
            Some(c) => {
                t.unblocked_by = None;
                task_map_insert(&mut self.tasks, task_id, t);
                resolved_map_remove(&mut self.resolved, c)
            },
            None => {
                task_map_insert(&mut self.tasks, task_id, t);
                proof {
                    assert(task_map_contents(self.tasks) =~= task_map_contents(old(self).tasks));
                }
                None
            },
        }
    }

    /// Blocks the running task on an external call.
    pub fn block_current_on_call(&mut self, call_id: CallId)
        requires
            old(self).current() matches Some(t) ==> old(self).tasks().contains_key(t),
        ensures
            final(self).tasks() == match old(self).current() {
                Some(t) => old(self).tasks().insert(t, with_state(old(self).tasks()[t], TaskState::BlockedOnCall(call_id))),
                None => old(self).tasks(),
            },
            final(self).queue() == old(self).queue(),
            final(self).same_calls(&old(self)),
            old(self).wf() ==> final(self).wf(),
    {
        if let Some(tid) = self.current_task {
            let mut t = match task_map_remove(&mut self.tasks, tid) {
                Some(t) => t,
                None => vstd::pervasive::unreached(),
            };
            t.state = TaskState::BlockedOnCall(call_id);
            task_map_insert(&mut self.tasks, tid, t);
        }
    }

    /// Replaces a task's state, dropping the old one.
    pub fn set_state(&mut self, task_id: TaskId, new_state: TaskState, heap: &mut Heap)
        requires
            old(self).tasks().contains_key(task_id),
            old(heap).wf(),
        ensures
            final(heap).wf(),
            final(heap)@.slots.len() == old(heap)@.slots.len(),
            old(self).tasks()[task_id].state is Ready ==> final(heap)@ == old(heap)@,
            crate::heap::room_kept(old(heap)@, final(heap)@),
            crate::heap::only_frees(old(heap)@, final(heap)@),
            final(self).tasks() == old(self).tasks().insert(task_id, with_state(old(self).tasks()[task_id], new_state)),
            final(self).queue() == old(self).queue(),
            final(self).same_calls(&old(self)),
            old(self).wf() ==> final(self).wf(),
    {
        let mut t = match task_map_remove(&mut self.tasks, task_id) {
            Some(t) => t,
            None => vstd::pervasive::unreached(),
        };
        let mut st = new_state;
        core::mem::swap(&mut t.state, &mut st);
        task_map_insert(&mut self.tasks, task_id, t);
        st.drop_with_heap(heap);
    }

    /// Makes a task ready and puts it at the back of the ready queue.
    pub fn make_ready(&mut self, task_id: TaskId, heap: &mut Heap)
        requires
            old(self).tasks().contains_key(task_id),
            old(heap).wf(),
        ensures
            final(heap).wf(),
            final(heap)@.slots.len() == old(heap)@.slots.len(),
            final(self).tasks() == old(self).tasks().insert(task_id, with_state(old(self).tasks()[task_id], TaskState::Ready)),
            final(self).queue() == old(self).queue().push(task_id),
            crate::heap::room_kept(old(heap)@, final(heap)@),
            crate::heap::only_frees(old(heap)@, final(heap)@),
            final(self).same_calls(&old(self)),
            old(self).wf() ==> final(self).wf(),
    {
        self.set_state(task_id, TaskState::Ready, heap);
        self.ready_queue.push_back(task_id);
    }

    /// Marks a task completed with its result.
    pub fn complete_task(&mut self, task_id: TaskId, result: Value, heap: &mut Heap)
        requires
            old(self).tasks().contains_key(task_id),
            old(heap).wf(),
        ensures
            final(heap).wf(),
            old(self).tasks()[task_id].state is Ready ==> final(heap)@ == old(heap)@,
            crate::heap::room_kept(old(heap)@, final(heap)@),
            final(self).tasks() == old(self).tasks().insert(task_id, with_state(old(self).tasks()[task_id], TaskState::Completed(result))),
            final(self).queue() == old(self).queue(),
            final(self).same_calls(&old(self)),
            old(self).wf() ==> final(self).wf(),
    {
        self.set_state(task_id, TaskState::Completed(result), heap);
    }

    /// Marks a task failed with its error; returns the gather it belongs to, if any.
    pub fn fail_task(&mut self, task_id: TaskId, error: RunError, heap: &mut Heap) -> (r: Option<HeapId>)
        requires
            old(self).tasks().contains_key(task_id),
            old(heap).wf(),
        ensures
            final(heap).wf(),
            final(heap)@.slots.len() == old(heap)@.slots.len(),
            r == old(self).tasks()[task_id].gather_id,
            final(self).tasks() == old(self).tasks().insert(task_id, with_state(old(self).tasks()[task_id], TaskState::Failed(error))),
            final(self).queue() == old(self).queue(),
            final(self).same_calls(&old(self)),
            old(self).wf() ==> final(self).wf(),
    {
        let gather_id = self.get_task(task_id).gather_id;
        self.set_state(task_id, TaskState::Failed(error), heap);
        gather_id
    }

    /// Spawns a task running a coroutine (and belonging to a gather, if given); the
    /// task takes a reference to each, gets the next task id, and joins the back of
    /// the ready queue.
    pub fn spawn(&mut self, heap: &mut Heap, coroutine_id: HeapId, gather_id: Option<HeapId>, gather_result_indices: Vec<usize>) -> (r: TaskId)
        requires
            old(heap).wf(),
            old(heap)@.live(coroutine_id),
            gather_id matches Some(g) ==> old(heap)@.live(g),
            old(self).next_task() < u32::MAX,
        ensures
            final(heap).wf(),
            same_objects(old(heap)@, final(heap)@),
            r == old(self).next_task(),
            final(self).next_task() == old(self).next_task() + 1,
            final(self).tasks().contains_key(r),
            final(self).tasks()[r].id == r,
            final(self).tasks()[r].state is Ready,
            final(self).tasks()[r].coroutine_id == Some(coroutine_id),
            final(self).tasks()[r].gather_id == gather_id,
            final(self).tasks()[r].gather_result_indices == gather_result_indices,
            final(self).tasks()[r].frames@.len() == 0,
            forall|k: TaskId| k != r ==> (#[trigger] final(self).tasks().contains_key(k) == old(self).tasks().contains_key(k)),
            forall|k: TaskId| k != r && old(self).tasks().contains_key(k) ==> #[trigger] final(self).tasks()[k] == old(self).tasks()[k],
            final(self).queue() == old(self).queue().push(r),
            final(self).current() == old(self).current(),
            final(self).next_call() == old(self).next_call(),
            final(self).pending() == old(self).pending(),
            final(self).resolved() == old(self).resolved(),
            final(self).consumed() == old(self).consumed(),
            final(self).waiters() == old(self).waiters(),
            old(self).wf() ==> final(self).wf(),
    {
        let task_id = self.next_task_id;
        self.next_task_id = self.next_task_id + 1;
        let ghost h0 = heap@;
        heap.inc_ref(coroutine_id);
        proof {
            assert forall|j: HeapId| h0.live(j) implies #[trigger] h0.data(j) == heap@.data(j) by {
                if j != coroutine_id {
                    assert(heap@.slots[j as int] == h0.slots[j as int]);
                }
            }
            assert forall|j: HeapId| #[trigger] h0.live(j) == heap@.live(j) by {
                if j != coroutine_id && (j as int) < h0.slots.len() {
                    assert(heap@.slots[j as int] == h0.slots[j as int]);
                }
            }
        }
        if let Some(g) = gather_id {
            if heap.is_live(g) {
                let ghost h1 = heap@;
                heap.inc_ref(g);
                proof {
                    assert forall|j: HeapId| h1.live(j) implies #[trigger] h1.data(j) == heap@.data(j) by {
                        if j != g {
                            assert(heap@.slots[j as int] == h1.slots[j as int]);
                        }
                    }
                    assert forall|j: HeapId| #[trigger] h1.live(j) == heap@.live(j) by {
                        if j != g && (j as int) < h1.slots.len() {
                            assert(heap@.slots[j as int] == h1.slots[j as int]);
                        }
                    }
                    crate::heap::lemma_same_objects_trans(h0, h1, heap@);
                }
            }
        }
        let task = Task::new(task_id, Some(coroutine_id), gather_id, gather_result_indices);
        task_map_insert(&mut self.tasks, task_id, task);
        self.ready_queue.push_back(task_id);
        task_id
    }
}

impl Scheduler {
    /// Cancels a task: removes it (and, when it waits on a gather, the gather's tasks
    /// in turn) from the scheduler and the ready queue, releasing what they hold. A
    /// task already removed is left alone.
    pub fn cancel_task(&mut self, task_id: TaskId, heap: &mut Heap)
        requires
            old(self).wf(),
            old(heap).wf(),
        ensures
            final(self).wf(),
            final(heap).wf(),
            final(heap)@.slots.len() == old(heap)@.slots.len(),
            crate::heap::room_kept(old(heap)@, final(heap)@),
            crate::heap::only_frees(old(heap)@, final(heap)@),
            !final(self).tasks().contains_key(task_id),
            final(self).tasks().dom().subset_of(old(self).tasks().dom()),
            forall|k: TaskId| #[trigger] final(self).tasks().contains_key(k) ==> final(self).tasks()[k] == old(self).tasks()[k],
            forall|k: TaskId| #[trigger] final(self).queue().contains(k) ==> old(self).queue().contains(k),
            old(self).tasks().contains_key(task_id) && !is_final(old(self).tasks()[task_id].state) ==> !final(self).queue().contains(task_id),
            !old(self).tasks().contains_key(task_id) ==> final(self).tasks() == old(self).tasks() && final(self).queue() == old(self).queue(),
            final(self).same_calls(&old(self)),
            old(self).tasks().contains_key(task_id) && !(old(self).tasks()[task_id].state is BlockedOnGather)
                ==> final(self).tasks().dom() == old(self).tasks().dom().remove(task_id),
            old(self).tasks().contains_key(task_id) && is_final(old(self).tasks()[task_id].state) ==> final(self).queue() == old(self).queue(),
            final(self).current() == old(self).current(),
            old(self).tasks().contains_key(task_id) ==> forall|k: int| 0 <= k < gathered_by(old(self).tasks()[task_id].state, old(heap)@).len()
                ==> !final(self).tasks().contains_key(#[trigger] gathered_by(old(self).tasks()[task_id].state, old(heap)@)[k]),
        decreases old(self).tasks().dom().len(),
    {
        let task = match task_map_remove(&mut self.tasks, task_id) {
            Some(t) => t,
            None => {
                proof {
                    assert(task_map_contents(self.tasks) =~= task_map_contents(old(self).tasks));
                }
                return;
            },
        };
        proof {
            assert(self.tasks().dom() =~= old(self).tasks().dom().remove(task_id));
        }
        if !task.is_finished() {
            self.remove_from_ready_queue(task_id);
            proof {
                assert forall|k: TaskId| #[trigger] self.queue().contains(k) implies old(self).queue().contains(k) && k != task_id by {
                    old(self).queue().lemma_filter_contains_rev(|x: TaskId| x != task_id, k);
                    old(self).queue().filter_lemma(|x: TaskId| x != task_id);
                }
            }
            if let TaskState::BlockedOnGather(gid) = task.state {
                let inner = if heap.is_live(gid) {
                    match heap.get(gid) {
                        HeapData::GatherFuture(g) => clone_ids(&g.task_ids),
                        _ => Vec::new(),
                    }
                } else {
                    Vec::new()
                };
                let mut i: usize = 0;
                while i < inner.len()
                    invariant
                        self.wf(),
                        heap.wf(),
                        heap@.slots.len() == old(heap)@.slots.len(),
                        crate::heap::room_kept(old(heap)@, heap@),
                        crate::heap::only_frees(old(heap)@, heap@),
                        i <= inner@.len(),
                        !self.tasks().contains_key(task_id),
                        self.tasks().dom().subset_of(old(self).tasks().dom().remove(task_id)),
                        forall|k: TaskId| #[trigger] self.tasks().contains_key(k) ==> self.tasks()[k] == old(self).tasks()[k],
                        forall|k: TaskId| #[trigger] self.queue().contains(k) ==> old(self).queue().contains(k) && k != task_id,
                        self.same_calls(&old(self)),
                        old(self).tasks().dom().finite(),
                        old(self).tasks().contains_key(task_id),
                        forall|q: int| 0 <= q < i ==> !self.tasks().contains_key(#[trigger] inner@[q]),
                    decreases inner@.len() - i,
                {
                    proof {
                        vstd::set_lib::lemma_len_subset(self.tasks().dom(), old(self).tasks().dom().remove(task_id));
                    }
                    self.cancel_task(inner[i], heap);
                    i = i + 1;
                }
            }
        }
        task.drop_with_heap(heap);
    }
}

/// A copy of a list of task ids.
pub fn clone_ids(v: &Vec<TaskId>) -> (r: Vec<TaskId>)
    ensures
        r@ == v@,
{
    let mut r: Vec<TaskId> = Vec::new();
    let mut i: usize = 0;
    while i < v.len()
        invariant
            i <= v@.len(),
            r@ == v@.take(i as int),
        decreases v@.len() - i,
    {
        r.push(v[i]);
        i = i + 1;
        assert(r@ == v@.take(i as int));
    }
    assert(v@.take(v@.len() as int) == v@);
    r
}

impl Scheduler {
    /// Fails the task waiting on an external call with the call's error. When a gather
    /// waits on the call, the gather's other external calls are forgotten, its tasks
    /// are cancelled, and the task awaiting the gather fails instead. Nothing happens
    /// when the call is not pending (its task may have been cancelled already).
    pub fn fail_for_call(&mut self, call_id: CallId, error: RunError, heap: &mut Heap)
        requires
            old(self).wf(),
            old(heap).wf(),
        ensures
            final(self).wf(),
            final(heap).wf(),
            !old(self).pending().contains_key(call_id) ==> {
                &&& final(self).tasks() == old(self).tasks()
                &&& final(self).queue() == old(self).queue()
                &&& final(self).same_calls(&old(self))
                &&& final(heap)@ == old(heap)@
            },
            old(self).pending().contains_key(call_id) && !old(self).waiters().contains_key(call_id) ==> {
                let tid = old(self).pending()[call_id].creator_task;
                &&& final(self).pending() == old(self).pending().remove(call_id)
                &&& final(self).waiters() == old(self).waiters()
                &&& final(self).resolved() == old(self).resolved()
                &&& final(self).queue() == old(self).queue()
                &&& final(self).tasks() == if old(self).tasks().contains_key(tid) {
                    old(self).tasks().insert(tid, with_state(old(self).tasks()[tid], TaskState::Failed(error)))
                } else {
                    old(self).tasks()
                }
            },
            old(self).pending().contains_key(call_id) && old(self).waiters().contains_key(call_id) ==> {
                &&& !final(self).pending().contains_key(call_id)
                &&& !final(self).waiters().contains_key(call_id)
                &&& final(self).resolved() == old(self).resolved()
            },
            final(self).current() == old(self).current(),
            final(self).next_task() == old(self).next_task(),
            final(self).next_call() == old(self).next_call(),
            final(self).consumed() == old(self).consumed(),
            gather_call_failed(*old(self), old(heap)@, *final(self), call_id, error),
    {
        let pending = match pending_map_remove(&mut self.pending_calls, call_id) {
            Some(p) => p,
            None => {
                proof {
                    assert(pending_map_contents(self.pending_calls) =~= pending_map_contents(old(self).pending_calls));
                }
                return;
            },
        };
        let task_id = pending.creator_task;
        let ghost h0 = heap@;
        pending.args.drop_with_heap(heap);
        match self.take_gather_waiter(call_id) {
            Some((gather_id, _indices)) => {
                let mut others: Vec<CallId> = Vec::new();
                let mut siblings: Vec<TaskId> = Vec::new();
                let mut waiter: Option<TaskId> = None;
                proof {
                    if holds_no_args(&old(self), call_id) {
                        assert(heap@ == h0);
                    }
                }
                if heap.is_live(gather_id) {
                    match heap.data_mut(gather_id) {
                        HeapData::GatherFuture(g) => {
                            core::mem::swap(&mut others, &mut g.pending_calls);
                            core::mem::swap(&mut siblings, &mut g.task_ids);
                            waiter = g.waiter;
                        },
                        _ => {},
                    }
                }
                proof {
                    if holds_no_args(&old(self), call_id) && h0.live(gather_id) && h0.data(gather_id) is GatherFuture {
                        assert(others@ == h0.data(gather_id)->GatherFuture_0.pending_calls@);
                        assert(siblings@ == h0.data(gather_id)->GatherFuture_0.task_ids@);
                        assert(waiter == h0.data(gather_id)->GatherFuture_0.waiter);
                    }
                }
                let mut i: usize = 0;
                while i < others.len()
                    invariant
                        self.wf(),
                        heap.wf(),
                        i <= others@.len(),
                        forall|q: int| 0 <= q < i ==> !self.pending().contains_key(#[trigger] others@[q]) && !self.waiters().contains_key(others@[q]),
                        !self.pending().contains_key(call_id),
                        !self.waiters().contains_key(call_id),
                        self.resolved() == old(self).resolved(),
                        self.current() == old(self).current(),
                        self.next_task() == old(self).next_task(),
                        self.next_call() == old(self).next_call(),
                        self.consumed() == old(self).consumed(),
                    decreases others@.len() - i,
                {
                    let other = others[i];
                    if other != call_id {
                        self.take_gather_waiter(other);
                        self.remove_pending_call(other, heap);
                    }
                    i = i + 1;
                }
                let mut j: usize = 0;
                while j < siblings.len()
                    invariant
                        self.wf(),
                        heap.wf(),
                        j <= siblings@.len(),
                        forall|q: int| 0 <= q < others@.len() ==> !self.pending().contains_key(#[trigger] others@[q]) && !self.waiters().contains_key(others@[q]),
                        forall|q: int| 0 <= q < j ==> !self.tasks().contains_key(#[trigger] siblings@[q]),
                        !self.pending().contains_key(call_id),
                        !self.waiters().contains_key(call_id),
                        self.resolved() == old(self).resolved(),
                        self.current() == old(self).current(),
                        self.next_task() == old(self).next_task(),
                        self.next_call() == old(self).next_call(),
                        self.consumed() == old(self).consumed(),
                    decreases siblings@.len() - j,
                {
                    self.cancel_task(siblings[j], heap);
                    j = j + 1;
                }
                if let Some(w) = waiter {
                    if task_map_get(&self.tasks, w).is_some() {
                        self.fail_task(w, error, heap);
                    }
                }
            },
            None => {
                if task_map_get(&self.tasks, task_id).is_some() {
                    self.fail_task(task_id, error, heap);
                }
            },
        }
    }

    /// Releases everything the scheduler holds: pending calls' arguments, resolved
    /// results, and every task.
    pub fn cleanup(&mut self, heap: &mut Heap)
        requires
            old(self).wf(),
            old(heap).wf(),
        ensures
            final(self).wf(),
            final(heap).wf(),
            final(self).tasks().is_empty(),
            final(self).pending().is_empty(),
            final(self).resolved().is_empty(),
    {
        let calls = pending_map_keys(&self.pending_calls);
        let mut i: usize = 0;
        while i < calls.len()
            invariant
                heap.wf(),
                self.wf(),
                i <= calls@.len(),
                calls@.no_duplicates(),
                calls@.to_set() == old(self).pending().dom(),
                self.resolved() == old(self).resolved(),
                forall|k: CallId| #[trigger] self.pending().contains_key(k) <==> (old(self).pending().contains_key(k) && !calls@.take(i as int).contains(k)),
            decreases calls@.len() - i,
        {
            let c = calls[i];
            let ghost before = self.pending();
            if let Some(d) = pending_map_remove(&mut self.pending_calls, c) {
                d.args.drop_with_heap(heap);
            }
            proof {
                assert forall|k: CallId| #[trigger] self.pending().contains_key(k) <==> (old(self).pending().contains_key(k) && !calls@.take(i + 1).contains(k)) by {
                    let t1 = calls@.take(i + 1);
                    let t0 = calls@.take(i as int);
                    assert(self.pending() == before.remove(c));
                    assert(before.contains_key(k) <==> (old(self).pending().contains_key(k) && !t0.contains(k)));
                    assert(t1 == t0.push(c));
                    assert(t1[i as int] == c);
                    if t0.contains(k) {
                        let x = choose|x: int| 0 <= x < t0.len() && t0[x] == k;
                        assert(t1[x] == k);
                    }
                    if k != c && t1.contains(k) {
                        let x = choose|x: int| 0 <= x < t1.len() && t1[x] == k;
                        assert(x < i);
                        assert(t0[x] == k);
                    }
                }
            }
            i = i + 1;
        }
        proof {
            assert(calls@.take(calls@.len() as int) == calls@);
            assert forall|k: CallId| !#[trigger] self.pending().contains_key(k) by {
                if old(self).pending().contains_key(k) {
                    assert(calls@.to_set().contains(k));
                }
            }
            assert(self.pending().dom() =~= Set::<CallId>::empty());
        }
        let ids = resolved_map_keys(&self.resolved);
        let mut j: usize = 0;
        while j < ids.len()
            invariant
                heap.wf(),
                self.wf(),
                self.pending().is_empty(),
                j <= ids@.len(),
                ids@.to_set() == old(self).resolved().dom(),
                forall|k: CallId| #[trigger] self.resolved().contains_key(k) <==> (old(self).resolved().contains_key(k) && !ids@.take(j as int).contains(k)),
            decreases ids@.len() - j,
        {
            let c = ids[j];
            let ghost before = self.resolved();
            if let Some(v) = resolved_map_remove(&mut self.resolved, c) {
                v.drop_with_heap(heap);
            }
            proof {
                assert forall|k: CallId| #[trigger] self.resolved().contains_key(k) <==> (old(self).resolved().contains_key(k) && !ids@.take(j + 1).contains(k)) by {
                    let t1 = ids@.take(j + 1);
                    let t0 = ids@.take(j as int);
                    assert(self.resolved() == before.remove(c));
                    assert(before.contains_key(k) <==> (old(self).resolved().contains_key(k) && !t0.contains(k)));
                    assert(t1 == t0.push(c));
                    assert(t1[j as int] == c);
                    if t0.contains(k) {
                        let x = choose|x: int| 0 <= x < t0.len() && t0[x] == k;
                        assert(t1[x] == k);
                    }
                    if k != c && t1.contains(k) {
                        let x = choose|x: int| 0 <= x < t1.len() && t1[x] == k;
                        assert(x < j);
                        assert(t0[x] == k);
                    }
                }
            }
            j = j + 1;
        }
        proof {
            assert(ids@.take(ids@.len() as int) == ids@);
            assert forall|k: CallId| !#[trigger] self.resolved().contains_key(k) by {
                if self.resolved().contains_key(k) {
                    assert(ids@.to_set().contains(k));
                    assert(ids@.contains(k));
                }
            }
            assert(self.resolved().dom() =~= Set::<CallId>::empty());
        }
        let tids = task_map_keys(&self.tasks);
        assert(tids@.skip(0) == tids@);
        let mut t: usize = 0;
        while t < tids.len()
            invariant
                heap.wf(),
                self.wf(),
                self.pending().is_empty(),
                self.resolved().is_empty(),
                t <= tids@.len(),
                self.tasks().dom().subset_of(tids@.skip(t as int).to_set()),
            decreases tids@.len() - t,
        {
            self.cancel_task(tids[t], heap);
            proof {
                assert forall|k: TaskId| #[trigger] self.tasks().contains_key(k) implies tids@.skip(t + 1).to_set().contains(k) by {
                    let x = choose|x: int| 0 <= x < tids@.skip(t as int).len() && tids@.skip(t as int)[x] == k;
                    assert(x != 0);
                    assert(tids@.skip(t + 1)[x - 1] == k);
                }
            }
            t = t + 1;
        }
        proof {
            assert(self.tasks().dom() =~= Set::<TaskId>::empty());
        }
    }
}

impl Scheduler {
    /// Pushes a value onto a suspended task's saved operand stack.
    pub fn push_to_task_stack(&mut self, task_id: TaskId, v: Value)
        requires
            old(self).tasks().contains_key(task_id),
        ensures
            final(self).tasks() == old(self).tasks().insert(task_id, Task { stack: old(self).tasks()[task_id].stack, ..old(self).tasks()[task_id] }).insert(task_id, final(self).tasks()[task_id]),
            final(self).tasks()[task_id].stack@ == old(self).tasks()[task_id].stack@.push(v),
            final(self).tasks()[task_id].state == old(self).tasks()[task_id].state,
            final(self).queue() == old(self).queue(),
            final(self).same_calls(&old(self)),
            old(self).wf() ==> final(self).wf(),
    {
        let mut t = match task_map_remove(&mut self.tasks, task_id) {
            Some(t) => t,
            None => vstd::pervasive::unreached(),
        };
        t.stack.push(v);
        task_map_insert(&mut self.tasks, task_id, t);
    }
}

impl Scheduler {
    /// Whether a task exists.
    pub fn has_task(&self, task_id: TaskId) -> (r: bool)
        ensures
            r == self.tasks().contains_key(task_id),
    {
        task_map_get(&self.tasks, task_id).is_some()
    }

    /// Whether a task exists and has not finished.
    pub fn has_unfinished_task(&self, task_id: TaskId) -> (r: bool)
        ensures
            r == (self.tasks().contains_key(task_id) && !is_final(self.tasks()[task_id].state)),
    {
        match task_map_get(&self.tasks, task_id) {
            Some(t) => !t.is_finished(),
            None => false,
        }
    }
}

impl Scheduler {
    /// Exchanges a task's state with `st`.
    pub fn swap_state(&mut self, task_id: TaskId, st: &mut TaskState)
        requires
            old(self).tasks().contains_key(task_id),
        ensures
            *final(st) == old(self).tasks()[task_id].state,
            final(self).tasks() == old(self).tasks().insert(task_id, with_state(old(self).tasks()[task_id], *old(st))),
            final(self).queue() == old(self).queue(),
            final(self).same_calls(&old(self)),
            old(self).wf() ==> final(self).wf(),
    {
        let mut t = match task_map_remove(&mut self.tasks, task_id) {
            Some(t) => t,
            None => vstd::pervasive::unreached(),
        };
        core::mem::swap(&mut t.state, st);
        task_map_insert(&mut self.tasks, task_id, t);
    }
}

impl Scheduler {
    /// Exchanges a task's saved execution context (call frames, operand stack,
    /// exception stack and instruction pointer) with the given one.
    pub fn swap_context(&mut self, task_id: TaskId, frames: &mut Vec<TaskFrame>, stack: &mut Vec<Value>, exception_stack: &mut Vec<Value>, ip: &mut usize)
        requires
            old(self).tasks().contains_key(task_id),
        ensures
            *final(frames) == old(self).tasks()[task_id].frames,
            *final(stack) == old(self).tasks()[task_id].stack,
            *final(exception_stack) == old(self).tasks()[task_id].exception_stack,
            *final(ip) == old(self).tasks()[task_id].instruction_ip,
            final(self).tasks() == old(self).tasks().insert(task_id, (Task {
                frames: *old(frames),
                stack: *old(stack),
                exception_stack: *old(exception_stack),
                instruction_ip: *old(ip),
                ..old(self).tasks()[task_id]
            })),
            final(self).queue() == old(self).queue(),
            final(self).same_calls(&old(self)),
            old(self).wf() ==> final(self).wf(),
    {
        let mut t = match task_map_remove(&mut self.tasks, task_id) {
            Some(t) => t,
            None => vstd::pervasive::unreached(),
        };
        core::mem::swap(&mut t.frames, frames);
        core::mem::swap(&mut t.stack, stack);
        core::mem::swap(&mut t.exception_stack, exception_stack);
        core::mem::swap(&mut t.instruction_ip, ip);
        task_map_insert(&mut self.tasks, task_id, t);
    }

    /// Takes the gather result slots of a task, leaving it none.
    pub fn take_gather_result_indices(&mut self, task_id: TaskId) -> (r: Vec<usize>)
        requires
            old(self).tasks().contains_key(task_id),
        ensures
            r == old(self).tasks()[task_id].gather_result_indices,
            final(self).tasks()[task_id].gather_result_indices@.len() == 0,
            final(self).tasks() == old(self).tasks().insert(task_id, (Task {
                gather_result_indices: final(self).tasks()[task_id].gather_result_indices,
                ..old(self).tasks()[task_id]
            })),
            final(self).queue() == old(self).queue(),
            final(self).same_calls(&old(self)),
            old(self).wf() ==> final(self).wf(),
    {
        let mut t = match task_map_remove(&mut self.tasks, task_id) {
            Some(t) => t,
            None => vstd::pervasive::unreached(),
        };
        let mut r: Vec<usize> = Vec::new();
        core::mem::swap(&mut t.gather_result_indices, &mut r);
        task_map_insert(&mut self.tasks, task_id, t);
        r
    }

    /// Blocks the running task on a gather; the task takes a reference to the gather.
    pub fn block_current_on_gather(&mut self, gather_id: HeapId, heap: &mut Heap)
        requires
            old(self).current() matches Some(t) ==> old(self).tasks().contains_key(t),
            old(heap).wf(),
            old(heap)@.live(gather_id),
        ensures
            final(heap).wf(),
            final(heap)@.slots.len() == old(heap)@.slots.len(),
            final(self).tasks() == match old(self).current() {
                Some(t) => old(self).tasks().insert(t, with_state(old(self).tasks()[t], TaskState::BlockedOnGather(gather_id))),
                None => old(self).tasks(),
            },
            final(self).queue() == old(self).queue(),
            final(self).same_calls(&old(self)),
            old(self).wf() ==> final(self).wf(),
            old(self).current() is Some && old(self).tasks()[old(self).current()->0].state is Ready ==> same_objects(old(heap)@, final(heap)@),
    {
        if let Some(tid) = self.current_task {
            let ghost h0 = heap@;
            heap.inc_ref(gather_id);
            proof {
                assert forall|j: HeapId| #[trigger] h0.live(j) == heap@.live(j) by {
                    if j != gather_id && j < h0.slots.len() {
                        assert(heap@.slots[j as int] == h0.slots[j as int]);
                    }
                }
                assert forall|j: HeapId| h0.live(j) implies #[trigger] h0.data(j) == heap@.data(j) by {
                    if j != gather_id {
                        assert(heap@.slots[j as int] == h0.slots[j as int]);
                    }
                }
            }
            self.set_state(tid, TaskState::BlockedOnGather(gather_id), heap);
        }
    }
}

/// What a resolved call gives back: taking the result of a call resolved with `v`
/// gives exactly `v`, and only once. The three steps are [`Scheduler::resolve`]
/// (from `s0` to `s1`) and two [`Scheduler::take_resolved`] calls (from `s1` to `s2`,
/// giving `taken`, and from `s2` to `s3`, giving `again`).
pub proof fn law_take_gives_back_resolved(s0: Scheduler, s1: Scheduler, s2: Scheduler, s3: Scheduler, c: CallId, v: Value, taken: Option<Value>, again: Option<Value>)
    requires
        s1.resolved() == s0.resolved().insert(c, v),
        taken == (if s1.resolved().contains_key(c) { Some(s1.resolved()[c]) } else { None::<Value> }),
        s2.resolved() == s1.resolved().remove(c),
        again == (if s2.resolved().contains_key(c) { Some(s2.resolved()[c]) } else { None::<Value> }),
        s3.resolved() == s2.resolved().remove(c),
    ensures
        taken == Some(v),
        again is None,
        s3.resolved() == s0.resolved().remove(c),
{
    assert(s3.resolved() =~= s0.resolved().remove(c));
}

/// Call ids are never handed out twice: two successive [`Scheduler::allocate_call_id`]
/// calls (from `s0` to `s1` giving `a`, then from `s1` to `s2` giving `b`) give
/// increasing ids, and the counter stays ahead of every id given.
pub proof fn law_call_ids_increase(s0: Scheduler, s1: Scheduler, s2: Scheduler, a: CallId, b: CallId)
    requires
        a == s0.next_call(),
        s1.next_call() == s0.next_call() + 1,
        b == s1.next_call(),
        s2.next_call() == s1.next_call() + 1,
    ensures
        a < b,
        b < s2.next_call(),
{
}

/// Resolving a call wakes exactly the task blocked on it: after
/// [`Scheduler::resolve`] (from `s0` to `s1`), that task is ready at the back of the
/// ready queue and remembers the call, so that loading it hands it the call's
/// result; a task not blocked on the call is left as it was.
pub proof fn law_resolve_wakes_blocked_creator(s0: Scheduler, s1: Scheduler, c: CallId, v: Value, tid: TaskId)
    requires
        s0.pending().contains_key(c),
        tid == s0.pending()[c].creator_task,
        s0.tasks().contains_key(tid),
        s0.tasks()[tid].state == TaskState::BlockedOnCall(c),
        s1.resolved() == s0.resolved().insert(c, v),
        s1.tasks() == s0.tasks().insert(tid, unblocked_task(s0.tasks()[tid], c)),
        s1.queue() == s0.queue().push(tid),
    ensures
        s1.tasks()[tid].state is Ready,
        s1.tasks()[tid].unblocked_by == Some(c),
        s1.queue().last() == tid,
        s1.resolved()[c] == v,
{
}

/// The heap id an optional reference holds.
pub open spec fn opt_ref(o: Option<HeapId>) -> Seq<HeapId> {
    match o {
        Some(h) => seq![h],
        None => Seq::empty(),
    }
}

/// The heap ids a task state holds: the gather it waits on, or its result.
pub open spec fn state_roots(s: TaskState) -> Seq<HeapId> {
    match s {
        TaskState::BlockedOnGather(g) => seq![g],
        TaskState::Completed(v) => value_ref_id(v),
        _ => Seq::empty(),
    }
}

/// The heap ids a task holds: its operand and exception stacks, its coroutine, its
/// gather, and its state's.
pub open spec fn task_roots(t: Task) -> Seq<HeapId> {
    values_ref_ids(t.stack@) + values_ref_ids(t.exception_stack@) + opt_ref(t.coroutine_id) + opt_ref(t.gather_id)
        + state_roots(t.state)
}

/// The heap ids held by call arguments.
pub open spec fn args_roots(a: ArgValues) -> Seq<HeapId> {
    values_ref_ids(a.positional@) + pairs_ref_ids(a.kwargs@)
}

/// Whether the scheduler holds a reference to heap object `h`: from a task, the
/// arguments of a pending call, a result not yet awaited, or a gather waiting on a
/// call.
pub open spec fn scheduler_root(s: Scheduler, h: HeapId) -> bool {
    ||| exists|t: TaskId| s.tasks().contains_key(t) && #[trigger] task_roots(s.tasks()[t]).contains(h)
    ||| exists|c: CallId| s.pending().contains_key(c) && #[trigger] args_roots(s.pending()[c].args).contains(h)
    ||| exists|c: CallId| s.resolved().contains_key(c) && #[trigger] value_ref_id(s.resolved()[c]).contains(h)
    ||| exists|c: CallId| #[trigger] s.waiters().contains_key(c) && s.waiters()[c].0 == h
}

impl TaskState {
    /// Appends the heap ids the state holds to `roots`.
    pub fn extend_gc_roots(&self, roots: &mut Vec<HeapId>)
        ensures
            final(roots)@ == old(roots)@ + state_roots(*self),
    {
        match self {
            TaskState::BlockedOnGather(g) => roots.push(*g),
            TaskState::Completed(v) => collect_value_ref_id(v, roots),
            _ => {
                assert(old(roots)@ + Seq::<HeapId>::empty() == old(roots)@);
            },
        }
    }
}

/// Appends the heap id an optional reference holds to `roots`.
fn push_opt_ref(o: Option<HeapId>, roots: &mut Vec<HeapId>)
    ensures
        final(roots)@ == old(roots)@ + opt_ref(o),
{
    match o {
        Some(h) => roots.push(h),
        None => {
            assert(old(roots)@ + Seq::<HeapId>::empty() == old(roots)@);
        },
    }
}

impl Task {
    /// Appends the heap ids the task holds to `roots`, so that a collection keeps
    /// them alive.
    pub fn extend_gc_roots(&self, roots: &mut Vec<HeapId>)
        ensures
            final(roots)@ == old(roots)@ + task_roots(*self),
    {
        let ghost r0 = roots@;
        collect_values_ref_ids(&self.stack, roots);
        collect_values_ref_ids(&self.exception_stack, roots);
        push_opt_ref(self.coroutine_id, roots);
        push_opt_ref(self.gather_id, roots);
        self.state.extend_gc_roots(roots);
        assert(roots@ =~= r0 + task_roots(*self));
    }
}

impl PendingCallData {
    /// Appends the heap ids held by the call's arguments to `roots`.
    pub fn extend_gc_roots(&self, roots: &mut Vec<HeapId>)
        ensures
            final(roots)@ == old(roots)@ + args_roots(self.args),
    {
        let ghost r0 = roots@;
        collect_values_ref_ids(&self.args.positional, roots);
        collect_pairs_ref_ids(&self.args.kwargs, roots);
        assert(roots@ =~= r0 + args_roots(self.args));
    }
}

impl Scheduler {
    /// Appends every heap id the scheduler holds to `roots` (tasks, pending calls'
    /// arguments, results not yet awaited, gathers waiting on calls), so that a
    /// collection keeps them alive; nothing else is added.
    pub fn extend_gc_roots(&self, roots: &mut Vec<HeapId>)
        ensures
            forall|h: HeapId| #[trigger] final(roots)@.contains(h) <==> (old(roots)@.contains(h) || scheduler_root(*self, h)),
    {
        let ghost r0 = roots@;
        let tids = task_map_keys(&self.tasks);
        let mut i: usize = 0;
        while i < tids.len()
            invariant
                i <= tids@.len(),
                tids@.to_set() == self.tasks().dom(),
                forall|h: HeapId| #[trigger] roots@.contains(h) <==> (r0.contains(h)
                    || exists|j: int| 0 <= j < i && #[trigger] task_roots(self.tasks()[tids@[j]]).contains(h)),
            decreases tids@.len() - i,
        {
            let ghost before = roots@;
            let t = match task_map_get(&self.tasks, tids[i]) {
                Some(t) => t,
                None => {
                    proof {
                        assert(tids@.to_set().contains(tids@[i as int]));
                    }
                    vstd::pervasive::unreached()
                },
            };
            t.extend_gc_roots(roots);
            proof {
                assert forall|h: HeapId| #[trigger] roots@.contains(h) <==> (r0.contains(h)
                    || exists|j: int| 0 <= j < i + 1 && #[trigger] task_roots(self.tasks()[tids@[j]]).contains(h)) by {
                    let extra = task_roots(self.tasks()[tids@[i as int]]);
                    assert(roots@ == before + extra);
                    if roots@.contains(h) {
                        let k = choose|k: int| 0 <= k < roots@.len() && roots@[k] == h;
                        if k < before.len() {
                            assert(before[k] == h);
                        } else {
                            assert(extra[k - before.len()] == h);
                            assert(extra.contains(h));
                        }
                    }
                    if before.contains(h) {
                        let k = choose|k: int| 0 <= k < before.len() && before[k] == h;
                        assert(roots@[k] == h);
                    }
                    if extra.contains(h) {
                        let k = choose|k: int| 0 <= k < extra.len() && extra[k] == h;
                        assert(roots@[before.len() + k] == h);
                    }
                }
            }
            i = i + 1;
        }
        let ghost r1 = roots@;
        let cids = pending_map_keys(&self.pending_calls);
        let mut p: usize = 0;
        while p < cids.len()
            invariant
                p <= cids@.len(),
                cids@.to_set() == self.pending().dom(),
                forall|h: HeapId| #[trigger] roots@.contains(h) <==> (r1.contains(h)
                    || exists|j: int| 0 <= j < p && #[trigger] args_roots(self.pending()[cids@[j]].args).contains(h)),
            decreases cids@.len() - p,
        {
            let ghost before = roots@;
            let d = match pending_map_get(&self.pending_calls, cids[p]) {
                Some(d) => d,
                None => {
                    proof {
                        assert(cids@.to_set().contains(cids@[p as int]));
                    }
                    vstd::pervasive::unreached()
                },
            };
            d.extend_gc_roots(roots);
            proof {
                assert forall|h: HeapId| #[trigger] roots@.contains(h) <==> (r1.contains(h)
                    || exists|j: int| 0 <= j < p + 1 && #[trigger] args_roots(self.pending()[cids@[j]].args).contains(h)) by {
                    let extra = args_roots(self.pending()[cids@[p as int]].args);
                    assert(roots@ == before + extra);
                    if roots@.contains(h) {
                        let k = choose|k: int| 0 <= k < roots@.len() && roots@[k] == h;
                        if k < before.len() {
                            assert(before[k] == h);
                        } else {
                            assert(extra[k - before.len()] == h);
                            assert(extra.contains(h));
                        }
                    }
                    if before.contains(h) {
                        let k = choose|k: int| 0 <= k < before.len() && before[k] == h;
                        assert(roots@[k] == h);
                    }
                    if extra.contains(h) {
                        let k = choose|k: int| 0 <= k < extra.len() && extra[k] == h;
                        assert(roots@[before.len() + k] == h);
                    }
                }
            }
            p = p + 1;
        }
        let ghost r2 = roots@;
        let rids = resolved_map_keys(&self.resolved);
        let mut q: usize = 0;
        while q < rids.len()
            invariant
                q <= rids@.len(),
                rids@.to_set() == self.resolved().dom(),
                forall|h: HeapId| #[trigger] roots@.contains(h) <==> (r2.contains(h)
                    || exists|j: int| 0 <= j < q && #[trigger] value_ref_id(self.resolved()[rids@[j]]).contains(h)),
            decreases rids@.len() - q,
        {
            let ghost before = roots@;
            let v = match resolved_map_get(&self.resolved, rids[q]) {
                Some(v) => v,
                None => {
                    proof {
                        assert(rids@.to_set().contains(rids@[q as int]));
                    }
                    vstd::pervasive::unreached()
                },
            };
            collect_value_ref_id(v, roots);
            proof {
                assert forall|h: HeapId| #[trigger] roots@.contains(h) <==> (r2.contains(h)
                    || exists|j: int| 0 <= j < q + 1 && #[trigger] value_ref_id(self.resolved()[rids@[j]]).contains(h)) by {
                    let extra = value_ref_id(self.resolved()[rids@[q as int]]);
                    assert(roots@ == before + extra);
                    if roots@.contains(h) {
                        let k = choose|k: int| 0 <= k < roots@.len() && roots@[k] == h;
                        if k < before.len() {
                            assert(before[k] == h);
                        } else {
                            assert(extra[k - before.len()] == h);
                            assert(extra.contains(h));
                        }
                    }
                    if before.contains(h) {
                        let k = choose|k: int| 0 <= k < before.len() && before[k] == h;
                        assert(roots@[k] == h);
                    }
                    if extra.contains(h) {
                        let k = choose|k: int| 0 <= k < extra.len() && extra[k] == h;
                        assert(roots@[before.len() + k] == h);
                    }
                }
            }
            q = q + 1;
        }
        let ghost r3 = roots@;
        let wids = waiter_map_keys(&self.gather_waiters);
        let mut w: usize = 0;
        while w < wids.len()
            invariant
                w <= wids@.len(),
                wids@.to_set() == self.waiters().dom(),
                forall|h: HeapId| #[trigger] roots@.contains(h) <==> (r3.contains(h)
                    || exists|j: int| 0 <= j < w && #[trigger] self.waiters()[wids@[j]].0 == h),
            decreases wids@.len() - w,
        {
            let ghost before = roots@;
            let g = match waiter_map_get(&self.gather_waiters, wids[w]) {
                Some(e) => e.0,
                None => {
                    proof {
                        assert(wids@.to_set().contains(wids@[w as int]));
                    }
                    vstd::pervasive::unreached()
                },
            };
            roots.push(g);
            proof {
                assert forall|h: HeapId| #[trigger] roots@.contains(h) <==> (r3.contains(h)
                    || exists|j: int| 0 <= j < w + 1 && #[trigger] self.waiters()[wids@[j]].0 == h) by {
                    if roots@.contains(h) {
                        let k = choose|k: int| 0 <= k < roots@.len() && roots@[k] == h;
                        if k < before.len() {
                            assert(before[k] == h);
                        }
                    }
                    if before.contains(h) {
                        let k = choose|k: int| 0 <= k < before.len() && before[k] == h;
                        assert(roots@[k] == h);
                    }
                    if h == g {
                        assert(roots@[before.len() as int] == h);
                    }
                }
            }
            w = w + 1;
        }
        proof {
            assert forall|h: HeapId| #[trigger] roots@.contains(h) <==> (r0.contains(h) || scheduler_root(*self, h)) by {
                if exists|t: TaskId| self.tasks().contains_key(t) && #[trigger] task_roots(self.tasks()[t]).contains(h) {
                    let t = choose|t: TaskId| self.tasks().contains_key(t) && #[trigger] task_roots(self.tasks()[t]).contains(h);
                    assert(tids@.to_set().contains(t));
                    let j = choose|j: int| 0 <= j < tids@.len() && tids@[j] == t;
                    assert(task_roots(self.tasks()[tids@[j]]).contains(h));
                }
                if exists|j: int| 0 <= j < tids@.len() && #[trigger] task_roots(self.tasks()[tids@[j]]).contains(h) {
                    let j = choose|j: int| 0 <= j < tids@.len() && #[trigger] task_roots(self.tasks()[tids@[j]]).contains(h);
                    assert(tids@.to_set().contains(tids@[j]));
                }
                if exists|c: CallId| self.pending().contains_key(c) && #[trigger] args_roots(self.pending()[c].args).contains(h) {
                    let c = choose|c: CallId| self.pending().contains_key(c) && #[trigger] args_roots(self.pending()[c].args).contains(h);
                    assert(cids@.to_set().contains(c));
                    let j = choose|j: int| 0 <= j < cids@.len() && cids@[j] == c;
                    assert(args_roots(self.pending()[cids@[j]].args).contains(h));
                }
                if exists|j: int| 0 <= j < cids@.len() && #[trigger] args_roots(self.pending()[cids@[j]].args).contains(h) {
                    let j = choose|j: int| 0 <= j < cids@.len() && #[trigger] args_roots(self.pending()[cids@[j]].args).contains(h);
                    assert(cids@.to_set().contains(cids@[j]));
                }
                if exists|c: CallId| self.resolved().contains_key(c) && #[trigger] value_ref_id(self.resolved()[c]).contains(h) {
                    let c = choose|c: CallId| self.resolved().contains_key(c) && #[trigger] value_ref_id(self.resolved()[c]).contains(h);
                    assert(rids@.to_set().contains(c));
                    let j = choose|j: int| 0 <= j < rids@.len() && rids@[j] == c;
                    assert(value_ref_id(self.resolved()[rids@[j]]).contains(h));
                }
                if exists|j: int| 0 <= j < rids@.len() && #[trigger] value_ref_id(self.resolved()[rids@[j]]).contains(h) {
                    let j = choose|j: int| 0 <= j < rids@.len() && #[trigger] value_ref_id(self.resolved()[rids@[j]]).contains(h);
                    assert(rids@.to_set().contains(rids@[j]));
                }
                if exists|c: CallId| #[trigger] self.waiters().contains_key(c) && self.waiters()[c].0 == h {
                    let c = choose|c: CallId| #[trigger] self.waiters().contains_key(c) && self.waiters()[c].0 == h;
                    assert(wids@.to_set().contains(c));
                    let j = choose|j: int| 0 <= j < wids@.len() && wids@[j] == c;
                    assert(self.waiters()[wids@[j]].0 == h);
                }
                if exists|j: int| 0 <= j < wids@.len() && #[trigger] self.waiters()[wids@[j]].0 == h {
                    let j = choose|j: int| 0 <= j < wids@.len() && #[trigger] self.waiters()[wids@[j]].0 == h;
                    assert(wids@.to_set().contains(wids@[j]));
                    assert(self.waiters().contains_key(wids@[j]));
                }
            }
        }
    }
}

} // verus!
