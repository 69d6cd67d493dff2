//! Async execution in the VM: awaiting coroutines, external futures and gathers,
//! switching between tasks, and finishing or failing spawned tasks.
//!
//! Task 0 is the main task. While a task runs, its context (call frames, operand
//! stack, exception stack, instruction pointer) lives in the VM; a task that is
//! switched away from keeps its context in the scheduler until it is loaded again.
use vstd::prelude::*;
use crate::async_state::{Coroutine, CoroutineState, GatherItem};
use crate::exception::{ExcType, RunError, is_error};
use crate::heap::{Heap, HeapData, HeapView, same_objects};
use crate::scheduler::{CallId, Scheduler, Task, TaskFrame, TaskId, TaskState, is_final, with_state};
use crate::value::{HeapId, Value, drop_values};
use crate::collections::{seen_map_contents, seen_map_get, seen_map_insert, seen_map_new};
use crate::vm::{VM, fill_slots};

verus! {

/// What the interpreter does after an `await`.
#[derive(Debug)]
pub enum AwaitResult {
    /// The awaited value is ready: push it and go on.
    ValueReady(Value),
    /// A frame was pushed or another task's context was loaded: go on running.
    FramePushed,
    /// No task can run: hand the host the external calls still pending.
    Yield(Vec<CallId>),
}

/// The frames of a context that count toward the recursion depth: all but the root.
pub open spec fn nested_depth(n: nat) -> nat {
    if n > 0 { (n - 1) as nat } else { 0 }
}

/// `a - b`, or 0 below zero.
pub open spec fn sat_sub(a: usize, b: nat) -> usize {
    if a >= b { (a - b) as usize } else { 0 }
}

/// `a + b`, or `usize::MAX` beyond it.
pub open spec fn sat_add(a: usize, b: nat) -> usize {
    if a + b <= usize::MAX { (a + b) as usize } else { usize::MAX }
}

/// `"cannot reuse already awaited coroutine"`.
pub open spec fn reused_coroutine_message() -> Seq<char> {
    "cannot reuse already awaited coroutine"@
}

/// `"cannot reuse already awaited future"`.
pub open spec fn reused_future_message() -> Seq<char> {
    "cannot reuse already awaited future"@
}

/// `"cannot reuse already awaited gather"`.
pub open spec fn reused_gather_message() -> Seq<char> {
    "cannot reuse already awaited gather"@
}

/// `"coroutine namespace size exceeds u16"`.
pub open spec fn namespace_too_large_message() -> Seq<char> {
    "coroutine namespace size exceeds u16"@
}

/// The coroutine object `id`, when `id` names one.
pub open spec fn coroutine_at(heap: HeapView, id: HeapId) -> Option<Coroutine> {
    if heap.live(id) && heap.data(id) is Coroutine {
        Some(heap.data(id)->Coroutine_0)
    } else {
        None
    }
}

/// The frame that runs a coroutine whose locals start at `stack_base`.
pub open spec fn coroutine_frame(c: Coroutine, stack_base: int) -> TaskFrame {
    TaskFrame { function_id: Some(c.func_id), ip: 0, stack_base: stack_base as usize, locals_count: c.namespace@.len() as u16 }
}

/// Copies of the values of `vs`, without taking references.
fn copy_bits(vs: &Vec<Value>) -> (r: Vec<Value>)
    ensures
        r@ == vs@,
{
    let mut r: Vec<Value> = Vec::new();
    let mut i: usize = 0;
    while i < vs.len()
        invariant
            i <= vs@.len(),
            r@ == vs@.take(i as int),
        decreases vs@.len() - i,
    {
        r.push(vs[i].clone_bits());
        i = i + 1;
        assert(r@ == vs@.take(i as int));
    }
    assert(vs@.take(vs@.len() as int) == vs@);
    r
}

/// The values of `vs`, each taking a new reference to what it refers to.
fn retain_all(vs: &Vec<Value>, heap: &mut Heap) -> (r: Vec<Value>)
    requires
        old(heap).wf(),
    ensures
        r@ == vs@,
        final(heap).wf(),
        same_objects(old(heap)@, final(heap)@),
{
    let mut r: Vec<Value> = Vec::new();
    let mut i: usize = 0;
    while i < vs.len()
        invariant
            i <= vs@.len(),
            r@ == vs@.take(i as int),
            heap.wf(),
            same_objects(old(heap)@, heap@),
        decreases vs@.len() - i,
    {
        let ghost h = heap@;
        let v = vs[i].clone_with_heap(heap);
        proof {
            crate::heap::lemma_same_objects_trans(old(heap)@, h, heap@);
        }
        r.push(v);
        i = i + 1;
        assert(r@ == vs@.take(i as int));
    }
    assert(vs@.take(vs@.len() as int) == vs@);
    r
}

impl VM {
    /// Whether the running task is a spawned task rather than the main task.
    pub fn is_spawned_task(&self) -> (r: bool)
        ensures
            r == (self.scheduler.current() matches Some(t) && t != 0),
    {
        match self.scheduler.current_task_id() {
            Some(id) => id != 0,
            None => false,
        }
    }

    /// Moves the loaded context into task `task_id` (taking the task's stored context
    /// in exchange, which is empty for a running task), and takes the task's nested
    /// frames off the global recursion depth.
    pub fn save_task_context(&mut self, task_id: TaskId)
        requires
            old(self).scheduler.tasks().contains_key(task_id),
        ensures
            final(self).scheduler.tasks() == old(self).scheduler.tasks().insert(task_id, (Task {
                frames: old(self).frames,
                stack: old(self).stack,
                exception_stack: old(self).exception_stack,
                instruction_ip: old(self).instruction_ip,
                ..old(self).scheduler.tasks()[task_id]
            })),
            final(self).frames == old(self).scheduler.tasks()[task_id].frames,
            final(self).stack == old(self).scheduler.tasks()[task_id].stack,
            final(self).exception_stack == old(self).scheduler.tasks()[task_id].exception_stack,
            final(self).instruction_ip == old(self).scheduler.tasks()[task_id].instruction_ip,
            final(self).recursion_depth == sat_sub(old(self).recursion_depth, nested_depth(old(self).frames@.len())),
            final(self).scheduler.queue() == old(self).scheduler.queue(),
            final(self).scheduler.same_calls(&old(self).scheduler),
            final(self).heap == old(self).heap,
            old(self).scheduler.wf() ==> final(self).scheduler.wf(),
    {
        let n = self.frames.len();
        let task_depth: usize = if n > 0 { n - 1 } else { 0 };
        self.recursion_depth = if self.recursion_depth >= task_depth { self.recursion_depth - task_depth } else { 0 };
        self.scheduler.swap_context(task_id, &mut self.frames, &mut self.stack, &mut self.exception_stack, &mut self.instruction_ip);
    }

    /// Releases the loaded context of a task that has finished: the values on its
    /// operand and exception stacks are dropped and its frames are discarded.
    pub fn cleanup_current_task(&mut self)
        requires
            old(self).heap.wf(),
        ensures
            final(self).heap.wf(),
            final(self).frames@.len() == 0,
            final(self).stack@.len() == 0,
            final(self).exception_stack@.len() == 0,
            final(self).scheduler == old(self).scheduler,
            final(self).instruction_ip == old(self).instruction_ip,
            final(self).recursion_depth == old(self).recursion_depth,
            crate::heap::room_kept(old(self).heap@, final(self).heap@),
    {
        let mut stack: Vec<Value> = Vec::new();
        core::mem::swap(&mut stack, &mut self.stack);
        drop_values(stack, &mut self.heap);
        let mut exc: Vec<Value> = Vec::new();
        core::mem::swap(&mut exc, &mut self.exception_stack);
        drop_values(exc, &mut self.heap);
        self.frames = Vec::new();
    }

    /// Pushes a coroutine's locals onto the operand stack and a frame that runs the
    /// coroutine's function over them.
    pub fn start_coroutine_frame(&mut self, func_id: u32, namespace_values: Vec<Value>)
        requires
            namespace_values@.len() <= u16::MAX,
        ensures
            final(self).stack@ == old(self).stack@ + namespace_values@,
            final(self).frames@ == old(self).frames@.push((TaskFrame {
                function_id: Some(func_id),
                ip: 0,
                stack_base: old(self).stack@.len() as usize,
                locals_count: namespace_values@.len() as u16,
            })),
            final(self).heap == old(self).heap,
            final(self).scheduler == old(self).scheduler,
            final(self).exception_stack == old(self).exception_stack,
            final(self).instruction_ip == old(self).instruction_ip,
            final(self).recursion_depth == old(self).recursion_depth,
    {
        let locals_count = namespace_values.len() as u16;
        let stack_base = self.stack.len();
        let mut ns = namespace_values;
        self.stack.append(&mut ns);
        self.frames.push(TaskFrame { function_id: Some(func_id), ip: 0, stack_base, locals_count });
    }

    /// Starts running a coroutine: it must not have been awaited before. Its
    /// captured locals are pushed (each taking a new reference), it is marked
    /// running, and a frame for its function is pushed. RuntimeError when the
    /// coroutine was already awaited.
    pub fn init_task_from_coroutine(&mut self, coroutine_id: HeapId) -> (r: Result<(), RunError>)
        requires
            old(self).heap.wf(),
            coroutine_at(old(self).heap@, coroutine_id) is Some,
        ensures
            final(self).heap.wf(),
            final(self).scheduler == old(self).scheduler,
            final(self).exception_stack == old(self).exception_stack,
            final(self).instruction_ip == old(self).instruction_ip,
            final(self).recursion_depth == old(self).recursion_depth,
            ({
                let c = coroutine_at(old(self).heap@, coroutine_id)->0;
                if c.state != CoroutineState::New {
                    &&& r matches Err(e) && is_error(e, ExcType::RuntimeError, reused_coroutine_message())
                    &&& final(self).heap@ == old(self).heap@
                    &&& final(self).frames == old(self).frames
                    &&& final(self).stack == old(self).stack
                } else if c.namespace@.len() > u16::MAX {
                    &&& r matches Err(e) && is_error(e, ExcType::RuntimeError, namespace_too_large_message())
                    &&& final(self).heap@ == old(self).heap@
                    &&& final(self).frames == old(self).frames
                    &&& final(self).stack == old(self).stack
                } else {
                    &&& r is Ok
                    &&& final(self).stack@ == old(self).stack@ + c.namespace@
                    &&& final(self).frames@ == old(self).frames@.push(coroutine_frame(c, old(self).stack@.len() as int))
                    &&& coroutine_at(final(self).heap@, coroutine_id) == Some(Coroutine { state: CoroutineState::Running, ..c })
                    &&& forall|j: HeapId| j != coroutine_id ==> (#[trigger] final(self).heap@.live(j) == old(self).heap@.live(j)
                        && (old(self).heap@.live(j) ==> final(self).heap@.data(j) == old(self).heap@.data(j)))
                }
            }),
    {
        let (func_id, state, bits) = match self.heap.get(coroutine_id) {
            HeapData::Coroutine(c) => (c.func_id, c.state, copy_bits(&c.namespace)),
            _ => vstd::pervasive::unreached(),
        };
        if state != CoroutineState::New {
            return Err(RunError::from_str(ExcType::RuntimeError, "cannot reuse already awaited coroutine"));
        }
        if bits.len() > 65535 {
            return Err(RunError::from_str(ExcType::RuntimeError, "coroutine namespace size exceeds u16"));
        }
        let ghost h0 = self.heap@;
        let values = retain_all(&bits, &mut self.heap);
        let ghost h1 = self.heap@;
        match self.heap.data_mut(coroutine_id) {
            HeapData::Coroutine(c) => {
                c.state = CoroutineState::Running;
            },
            _ => {},
        }
        proof {
            assert(h1.live(coroutine_id));
            assert forall|j: HeapId| j != coroutine_id implies (#[trigger] self.heap@.live(j) == h0.live(j)
                && (h0.live(j) ==> self.heap@.data(j) == h0.data(j))) by {
                if (j as int) < h1.slots.len() {
                    assert(self.heap@.slots[j as int] == h1.slots[j as int]);
                }
            }
        }
        self.start_coroutine_frame(func_id, values);
        Ok(())
    }

    /// `await coroutine`: starts running the coroutine in a new frame of the current
    /// task (see [`VM::init_task_from_coroutine`]).
    pub fn await_coroutine(&mut self, coroutine_id: HeapId) -> (r: Result<AwaitResult, RunError>)
        requires
            old(self).heap.wf(),
            coroutine_at(old(self).heap@, coroutine_id) is Some,
        ensures
            final(self).heap.wf(),
            final(self).scheduler == old(self).scheduler,
            ({
                let c = coroutine_at(old(self).heap@, coroutine_id)->0;
                if c.state != CoroutineState::New {
                    &&& r matches Err(e) && is_error(e, ExcType::RuntimeError, reused_coroutine_message())
                    &&& final(self).frames == old(self).frames
                    &&& final(self).stack == old(self).stack
                } else if c.namespace@.len() > u16::MAX {
                    r matches Err(e) && is_error(e, ExcType::RuntimeError, namespace_too_large_message())
                } else {
                    &&& r matches Ok(AwaitResult::FramePushed)
                    &&& final(self).stack@ == old(self).stack@ + c.namespace@
                    &&& final(self).frames@ == old(self).frames@.push(coroutine_frame(c, old(self).stack@.len() as int))
                    &&& coroutine_at(final(self).heap@, coroutine_id) == Some(Coroutine { state: CoroutineState::Running, ..c })
                }
            }),
    {
        self.init_task_from_coroutine(coroutine_id)?;
        Ok(AwaitResult::FramePushed)
    }
}

/// The value a task gets back when it is loaded: the result of the call that woke
/// it, if that result is still held.
pub open spec fn resumed_value(resolved: Map<CallId, Value>, t: Task) -> Seq<Value> {
    match t.unblocked_by {
        Some(c) => if resolved.contains_key(c) { seq![resolved[c]] } else { Seq::empty() },
        None => Seq::empty(),
    }
}

/// The coroutine a task runs, when it names one.
pub open spec fn task_coroutine(heap: HeapView, t: Task) -> Option<Coroutine> {
    match t.coroutine_id {
        Some(c) => coroutine_at(heap, c),
        None => None,
    }
}

/// The task awaiting gather `id`, when `id` names a gather that has one.
pub open spec fn gather_waiter(heap: HeapView, id: HeapId) -> Option<TaskId> {
    if heap.live(id) && heap.data(id) is GatherFuture {
        heap.data(id)->GatherFuture_0.waiter
    } else {
        None
    }
}

impl VM {
    /// Loads the context of task `task_id`, which has just become the current task.
    /// A task with saved frames gets its context back. A task that has not started
    /// runs its coroutine from the beginning; when that coroutine was already
    /// awaited, the task fails instead (see [`VM::handle_task_failure`]). A task woken
    /// by a resolved external call then finds the call's result on its stack. The
    /// task's nested frames are added to the global recursion depth.
    #[verifier::spinoff_prover]
    #[verifier::rlimit(30)]
    pub fn load_or_init_task(&mut self, task_id: TaskId) -> (r: Result<(), RunError>)
        requires
            old(self).heap.wf(),
            old(self).scheduler.wf(),
            old(self).scheduler.tasks().contains_key(task_id),
            old(self).scheduler.current() == Some(task_id),
        ensures
            final(self).heap.wf(),
            final(self).scheduler.wf(),
            final(self).scheduler.tasks().dom().subset_of(old(self).scheduler.tasks().dom()),
            final(self).scheduler.consumed() == old(self).scheduler.consumed(),
            final(self).scheduler.pending() == old(self).scheduler.pending(),
            final(self).scheduler.waiters() == old(self).scheduler.waiters(),
            final(self).scheduler.next_call() == old(self).scheduler.next_call(),
            final(self).scheduler.next_task() == old(self).scheduler.next_task(),
            r matches Err(e) ==> e.exc_type == ExcType::RuntimeError,
            starts_cleanly(old(self).heap@, old(self).scheduler, task_id) ==> r is Ok,
            ({
                let t = old(self).scheduler.tasks()[task_id];
                t.frames@.len() > 0 ==> {
                    &&& r is Ok
                    &&& final(self).heap@ == old(self).heap@
                    &&& final(self).frames == t.frames
                    &&& final(self).exception_stack == t.exception_stack
                    &&& final(self).instruction_ip == t.instruction_ip
                    &&& final(self).stack@ == t.stack@ + resumed_value(old(self).scheduler.resolved(), t)
                    &&& final(self).recursion_depth == sat_add(old(self).recursion_depth, nested_depth(t.frames@.len()))
                    &&& final(self).scheduler.current() == Some(task_id)
                    &&& final(self).scheduler.queue() == old(self).scheduler.queue()
                    &&& final(self).scheduler.tasks().dom() == old(self).scheduler.tasks().dom()
                    &&& final(self).scheduler.tasks()[task_id].state == t.state
                    &&& forall|k: TaskId| k != task_id && #[trigger] old(self).scheduler.tasks().contains_key(k)
                        ==> final(self).scheduler.tasks()[k] == old(self).scheduler.tasks()[k]
                }
            }),
            ({
                let t = old(self).scheduler.tasks()[task_id];
                let co = task_coroutine(old(self).heap@, t)->0;
                t.frames@.len() == 0 && task_coroutine(old(self).heap@, t) is Some
                    && co.state == CoroutineState::New && co.namespace@.len() <= u16::MAX ==> {
                    &&& r is Ok
                    &&& final(self).frames@ == old(self).frames@.push(coroutine_frame(co, old(self).stack@.len() as int))
                    &&& final(self).stack@ == old(self).stack@ + co.namespace@ + resumed_value(old(self).scheduler.resolved(), t)
                    &&& final(self).scheduler.current() == Some(task_id)
                    &&& final(self).scheduler.queue() == old(self).scheduler.queue()
                    &&& forall|k: TaskId| k != task_id && #[trigger] old(self).scheduler.tasks().contains_key(k)
                        ==> final(self).scheduler.tasks().contains_key(k) && final(self).scheduler.tasks()[k] == old(self).scheduler.tasks()[k]
                }
            }),
            ({
                let t = old(self).scheduler.tasks()[task_id];
                t.frames@.len() == 0 && t.coroutine_id is Some && fresh_coroutine(old(self).heap@, t.coroutine_id->0) ==>
                    heap_kept_but(old(self).heap@, final(self).heap@, t.coroutine_id->0)
            }),
        decreases old(self).scheduler.tasks().dom().len(), old(self).scheduler.queue().len(), 1int,
    {
        let t = self.scheduler.get_task(task_id);
        let n = t.frames.len();
        let coroutine_id = t.coroutine_id;
        let ghost mut h_init = self.heap@;
        if n > 0 {
            let task_depth: usize = n - 1;
            self.recursion_depth = if self.recursion_depth <= usize::MAX - task_depth { self.recursion_depth + task_depth } else { usize::MAX };
            self.scheduler.swap_context(task_id, &mut self.frames, &mut self.stack, &mut self.exception_stack, &mut self.instruction_ip);
            proof {
                assert(self.scheduler.tasks().dom() =~= old(self).scheduler.tasks().dom());
            }
        } else {
            match coroutine_id {
                Some(c) => {
                    let startable = self.heap.is_live(c) && match self.heap.get(c) {
                        HeapData::Coroutine(co) => co.state == CoroutineState::New,
                        _ => false,
                    };
                    if startable {
                        self.init_task_from_coroutine(c)?;
                        proof {
                            h_init = self.heap@;
                            if coroutine_at(old(self).heap@, c)->0.namespace@.len() <= u16::MAX {
                                assert forall|j: HeapId| j != c implies (#[trigger] h_init.live(j) == old(self).heap@.live(j)
                                    && (old(self).heap@.live(j) ==> h_init.data(j) == old(self).heap@.data(j))) by {}
                            }
                        }
                    } else {
                        let error = RunError::from_str(ExcType::RuntimeError, "cannot reuse already awaited coroutine");
                        return self.handle_task_failure(error);
                    }
                },
                None => {},
            }
        }
        let ghost s1 = self.scheduler;
        if let Some(v) = self.scheduler.take_resolved_for_task(task_id) {
            self.stack.push(v);
        }
        proof {
            assert(self.scheduler.tasks().dom() =~= s1.tasks().dom());
            assert forall|k: TaskId| k != task_id && #[trigger] s1.tasks().contains_key(k)
                implies self.scheduler.tasks().contains_key(k) && self.scheduler.tasks()[k] == s1.tasks()[k] by {}
            if n == 0 && coroutine_id is Some && fresh_coroutine(old(self).heap@, coroutine_id->0) {
                assert forall|j: HeapId| j != coroutine_id->0 implies (#[trigger] self.heap@.live(j) == old(self).heap@.live(j)
                    && (old(self).heap@.live(j) ==> self.heap@.data(j) == old(self).heap@.data(j))) by {
                    assert(h_init.live(j) == old(self).heap@.live(j));
                }
            }
            if n == 0 && coroutine_id is Some && fresh_coroutine(old(self).heap@, coroutine_id->0) {
                assert(heap_kept_but(old(self).heap@, self.heap@, coroutine_id->0));
            }
            if n == 0 {
                assert(self.heap@ == h_init);
                assert(s1.tasks() == old(self).scheduler.tasks());
                assert forall|k: TaskId| k != task_id && #[trigger] old(self).scheduler.tasks().contains_key(k)
                    implies self.scheduler.tasks().contains_key(k) && self.scheduler.tasks()[k] == old(self).scheduler.tasks()[k] by {
                    assert(s1.tasks().contains_key(k));
                }
            }
        }
        Ok(())
    }

    /// Fails the running spawned task with an exception that escaped all its frames.
    /// When the task belongs to a gather, the gather's tasks are all released, the
    /// task awaiting the gather becomes current, and the error is raised there (the
    /// result is that error). Otherwise the task is marked failed and the next ready
    /// task, if any, is loaded.
    pub fn handle_task_failure(&mut self, error: RunError) -> (r: Result<(), RunError>)
        requires
            old(self).heap.wf(),
            old(self).scheduler.wf(),
            old(self).scheduler.current() matches Some(t) && old(self).scheduler.tasks().contains_key(t),
        ensures
            final(self).heap.wf(),
            final(self).scheduler.wf(),
            final(self).scheduler.tasks().dom().subset_of(old(self).scheduler.tasks().dom()),
            final(self).scheduler.consumed() == old(self).scheduler.consumed(),
            final(self).scheduler.pending() == old(self).scheduler.pending(),
            final(self).scheduler.waiters() == old(self).scheduler.waiters(),
            final(self).scheduler.next_call() == old(self).scheduler.next_call(),
            final(self).scheduler.next_task() == old(self).scheduler.next_task(),
            r matches Err(e) ==> e == error || e.exc_type == ExcType::RuntimeError,
            ({
                let t = old(self).scheduler.current()->0;
                old(self).scheduler.tasks()[t].gather_id is None && old(self).scheduler.queue().len() == 0 ==> {
                    &&& r is Ok
                    &&& final(self).scheduler.tasks() == old(self).scheduler.tasks().insert(t, with_state(old(self).scheduler.tasks()[t], TaskState::Failed(error)))
                    &&& final(self).scheduler.current() is None
                    &&& final(self).frames@.len() == 0
                    &&& final(self).stack@.len() == 0
                }
            }),
            ({
                let t = old(self).scheduler.current()->0;
                let g = old(self).scheduler.tasks()[t].gather_id->0;
                let w = gather_waiter(old(self).heap@, g)->0;
                old(self).scheduler.tasks()[t].gather_id is Some && gather_waiter(old(self).heap@, g) is Some
                    && w != t && old(self).scheduler.tasks().contains_key(w) ==> {
                    &&& r is Err
                    &&& !final(self).scheduler.tasks().contains_key(t)
                    &&& forall|k: int| 0 <= k < old(self).heap@.data(g)->GatherFuture_0.task_ids@.len()
                        ==> !final(self).scheduler.tasks().contains_key(#[trigger] old(self).heap@.data(g)->GatherFuture_0.task_ids@[k])
                    &&& final(self).scheduler.tasks().contains_key(w) && old(self).scheduler.tasks()[w].frames@.len() > 0 ==> {
                        &&& r == Err::<(), RunError>(error)
                        &&& final(self).scheduler.current() == Some(w)
                        &&& final(self).scheduler.tasks()[w].state == TaskState::Ready
                        &&& final(self).frames == old(self).scheduler.tasks()[w].frames
                    }
                }
            }),
            ({
                let t = old(self).scheduler.current()->0;
                let q = old(self).scheduler.queue();
                old(self).scheduler.tasks()[t].gather_id is None && q.len() > 0 && q[0] != t
                    && old(self).scheduler.tasks().contains_key(q[0]) && old(self).scheduler.tasks()[q[0]].frames@.len() > 0 ==> {
                    &&& r is Ok
                    &&& final(self).scheduler.current() == Some(q[0])
                    &&& final(self).frames == old(self).scheduler.tasks()[q[0]].frames
                    &&& final(self).scheduler.tasks()[t].state == TaskState::Failed(error)
                }
            }),
        decreases old(self).scheduler.tasks().dom().len(), old(self).scheduler.queue().len(), 0int,
    {
        let task_id = match self.scheduler.current_task_id() {
            Some(t) => t,
            None => vstd::pervasive::unreached(),
        };
        let ghost dom0 = self.scheduler.tasks().dom();
        let gather_id = self.scheduler.get_task(task_id).gather_id;
        if let Some(gid) = gather_id {
            let waiter = if self.heap.is_live(gid) {
                match self.heap.get(gid) {
                    HeapData::GatherFuture(g) => g.waiter,
                    _ => None,
                }
            } else {
                None
            };
            if let Some(waiter_id) = waiter {
                let mut task_ids: Vec<TaskId> = Vec::new();
                match self.heap.data_mut(gid) {
                    HeapData::GatherFuture(g) => {
                        core::mem::swap(&mut task_ids, &mut g.task_ids);
                    },
                    _ => {},
                }
                let waiter_known = self.scheduler.has_task(waiter_id) && waiter_id != task_id;
                let mut i: usize = 0;
                while i < task_ids.len()
                    invariant
                        self.heap.wf(),
                        self.scheduler.wf(),
                        self.scheduler.tasks().dom().subset_of(dom0),
                        dom0.finite(),
                        dom0.contains(task_id),
                        i <= task_ids@.len(),
                        self.scheduler.same_calls(&old(self).scheduler),
                        forall|q: int| 0 <= q < i ==> !self.scheduler.tasks().contains_key(#[trigger] task_ids@[q]),
                        forall|k: TaskId| #[trigger] self.scheduler.tasks().contains_key(k) ==> self.scheduler.tasks()[k] == old(self).scheduler.tasks()[k],
                    decreases task_ids@.len() - i,
                {
                    self.scheduler.cancel_task(task_ids[i], &mut self.heap);
                    i = i + 1;
                }
                // The failing task is among the gather's tasks; make sure it is gone.
                self.scheduler.cancel_task(task_id, &mut self.heap);
                proof {
                    assert(self.scheduler.tasks().dom().subset_of(dom0.remove(task_id)));
                    vstd::set_lib::lemma_len_subset(self.scheduler.tasks().dom(), dom0.remove(task_id));
                }
                self.cleanup_current_task();
                if waiter_known && self.scheduler.has_task(waiter_id) {
                    self.scheduler.set_state(waiter_id, TaskState::Ready, &mut self.heap);
                    self.scheduler.set_current_task(Some(waiter_id));
                    self.load_or_init_task(waiter_id)?;
                    return Err(error);
                }
                self.scheduler.set_current_task(None);
                return Err(error);
            }
        }
        self.scheduler.fail_task(task_id, error, &mut self.heap);
        proof {
            assert(self.scheduler.tasks().dom() =~= dom0);
        }
        self.cleanup_current_task();
        self.scheduler.set_current_task(None);
        if let Some(next) = self.scheduler.next_ready_task() {
            if self.scheduler.has_task(next) {
                self.scheduler.set_current_task(Some(next));
                self.load_or_init_task(next)?;
            }
        }
        Ok(())
    }
}

impl VM {
    /// Called when the running task blocks: the next ready task becomes current (the
    /// running task's context is saved first) and its context is loaded; with no
    /// ready task the host gets the pending external calls and the running task's
    /// context stays loaded.
    pub fn switch_or_yield(&mut self) -> (r: Result<AwaitResult, RunError>)
        requires
            old(self).heap.wf(),
            old(self).scheduler.wf(),
            old(self).scheduler.current() matches Some(t) ==> old(self).scheduler.tasks().contains_key(t),
        ensures
            final(self).heap.wf(),
            final(self).scheduler.wf(),
            final(self).scheduler.tasks().dom().subset_of(old(self).scheduler.tasks().dom()),
            final(self).scheduler.consumed() == old(self).scheduler.consumed(),
            final(self).scheduler.pending() == old(self).scheduler.pending(),
            final(self).scheduler.waiters() == old(self).scheduler.waiters(),
            final(self).scheduler.next_call() == old(self).scheduler.next_call(),
            final(self).scheduler.next_task() == old(self).scheduler.next_task(),
            r matches Err(e) ==> e.exc_type == ExcType::RuntimeError,
            old(self).scheduler.queue().len() == 0 ==> {
                &&& r matches Ok(AwaitResult::Yield(ids)) && ids@.no_duplicates() && ids@.to_set() == old(self).scheduler.pending().dom()
                &&& final(self).scheduler.tasks() == old(self).scheduler.tasks()
                &&& final(self).scheduler.queue() == old(self).scheduler.queue()
                &&& final(self).scheduler.current() == old(self).scheduler.current()
                &&& final(self).scheduler.resolved() == old(self).scheduler.resolved()
                &&& final(self).frames == old(self).frames
                &&& final(self).stack == old(self).stack
                &&& final(self).heap == old(self).heap
            },
            old(self).scheduler.queue().len() > 0 && old(self).scheduler.tasks().contains_key(old(self).scheduler.queue()[0]) ==> {
                &&& r matches Ok(v) ==> v is FramePushed
                &&& r matches Err(e) ==> e.exc_type == ExcType::RuntimeError
            },
            ({
                let s = old(self).scheduler;
                let t = s.tasks()[s.queue()[0]];
                let co = task_coroutine(old(self).heap@, t)->0;
                s.queue().len() > 0 && s.tasks().contains_key(s.queue()[0]) && s.current() != Some(s.queue()[0])
                    && t.frames@.len() == 0 && task_coroutine(old(self).heap@, t) is Some
                    && co.state == CoroutineState::New && co.namespace@.len() <= u16::MAX
                    ==> r == Ok::<AwaitResult, RunError>(AwaitResult::FramePushed)
            }),
            ({
                let s = old(self).scheduler;
                s.queue().len() > 0 && s.current() != Some(s.queue()[0]) && starts_cleanly(old(self).heap@, s, s.queue()[0])
                    ==> r == Ok::<AwaitResult, RunError>(AwaitResult::FramePushed)
            }),
            ({
                let s = old(self).scheduler;
                let next = s.queue()[0];
                let t = s.tasks()[next];
                s.queue().len() > 0 && s.tasks().contains_key(next) && s.current() != Some(next)
                    && t.frames@.len() == 0 && t.coroutine_id is Some && fresh_coroutine(old(self).heap@, t.coroutine_id->0) ==> {
                    &&& final(self).scheduler.current() == Some(next)
                    &&& forall|k: TaskId| k != next && #[trigger] s.tasks().contains_key(k) ==> final(self).scheduler.tasks().contains_key(k)
                        && final(self).scheduler.tasks()[k].state == s.tasks()[k].state
                        && (Some(k) != s.current() ==> final(self).scheduler.tasks()[k] == s.tasks()[k])
                    &&& heap_kept_but(old(self).heap@, final(self).heap@, t.coroutine_id->0)
                }
            }),
    {
        let ghost s0 = self.scheduler;
        match self.scheduler.next_ready_task() {
            Some(next) => {
                if !self.scheduler.has_task(next) {
                    // A queued id whose task is gone has nothing to run.
                    return Ok(AwaitResult::Yield(self.scheduler.pending_call_ids()));
                }
                if let Some(cur) = self.scheduler.current_task_id() {
                    self.save_task_context(cur);
                }
                self.scheduler.set_current_task(Some(next));
                proof {
                    assert(self.scheduler.tasks().dom() =~= s0.tasks().dom());
                }
                self.load_or_init_task(next)?;
                Ok(AwaitResult::FramePushed)
            },
            None => Ok(AwaitResult::Yield(self.scheduler.pending_call_ids())),
        }
    }

    /// `await` on the future of an external call. A future can be awaited once:
    /// RuntimeError the second time. A call already resolved gives its result at
    /// once; otherwise the running task blocks on the call and another task runs (or
    /// the host is asked to resolve calls).
    pub fn await_external_future(&mut self, call_id: CallId) -> (r: Result<AwaitResult, RunError>)
        requires
            old(self).heap.wf(),
            old(self).scheduler.wf(),
            old(self).scheduler.current() matches Some(t) ==> old(self).scheduler.tasks().contains_key(t),
        ensures
            final(self).heap.wf(),
            final(self).scheduler.wf(),
            old(self).scheduler.consumed().contains(call_id) ==> {
                &&& r matches Err(e) && is_error(e, ExcType::RuntimeError, reused_future_message())
                &&& final(self).scheduler == old(self).scheduler
                &&& final(self).frames == old(self).frames
                &&& final(self).stack == old(self).stack
            },
            !old(self).scheduler.consumed().contains(call_id) ==> final(self).scheduler.consumed() == old(self).scheduler.consumed().insert(call_id),
            !old(self).scheduler.consumed().contains(call_id) && old(self).scheduler.resolved().contains_key(call_id) ==> {
                &&& r == Ok::<AwaitResult, RunError>(AwaitResult::ValueReady(old(self).scheduler.resolved()[call_id]))
                &&& final(self).scheduler.resolved() == old(self).scheduler.resolved().remove(call_id)
                &&& final(self).scheduler.tasks() == old(self).scheduler.tasks()
                &&& final(self).scheduler.queue() == old(self).scheduler.queue()
                &&& final(self).frames == old(self).frames
                &&& final(self).stack == old(self).stack
            },
            !old(self).scheduler.consumed().contains(call_id) && !old(self).scheduler.resolved().contains_key(call_id)
                && old(self).scheduler.queue().len() == 0 ==> {
                &&& r matches Ok(AwaitResult::Yield(ids)) && ids@.no_duplicates() && ids@.to_set() == old(self).scheduler.pending().dom()
                &&& final(self).scheduler.tasks() == match old(self).scheduler.current() {
                    Some(t) => old(self).scheduler.tasks().insert(t, with_state(old(self).scheduler.tasks()[t], TaskState::BlockedOnCall(call_id))),
                    None => old(self).scheduler.tasks(),
                }
                &&& final(self).frames == old(self).frames
                &&& final(self).stack == old(self).stack
            },
    {
        if self.scheduler.is_consumed(call_id) {
            return Err(RunError::from_str(ExcType::RuntimeError, "cannot reuse already awaited future"));
        }
        self.scheduler.mark_consumed(call_id);
        match self.scheduler.take_resolved(call_id) {
            Some(value) => Ok(AwaitResult::ValueReady(value)),
            None => {
                self.scheduler.block_current_on_call(call_id);
                let ghost s1 = self.scheduler;
                let r = self.switch_or_yield();
                r
            },
        }
    }
}

/// Whether `id` names a gather on the heap.
pub open spec fn is_gather(heap: HeapView, id: HeapId) -> bool {
    heap.live(id) && heap.data(id) is GatherFuture
}

/// The awaitables of gather `id`.
pub open spec fn gather_items(heap: HeapView, id: HeapId) -> Seq<GatherItem> {
    heap.data(id)->GatherFuture_0.items@
}

/// The external calls among gathered awaitables.
pub open spec fn external_calls(items: Seq<GatherItem>) -> Set<CallId> {
    Set::new(|c: CallId| exists|i: int| 0 <= i < items.len() && items[i] == GatherItem::ExternalFuture(c))
}

/// Whether a plan lists each distinct key of `keys` once, with the positions of
/// `keys` holding it: every position is listed under its key, and every listed
/// position holds the key it is listed under.
pub open spec fn plan_of(keys: Seq<Option<usize>>, ids: Seq<usize>, slots: Seq<Vec<usize>>) -> bool {
    &&& ids.len() == slots.len()
    &&& ids.no_duplicates()
    &&& forall|m: int| 0 <= m < slots.len() ==> #[trigger] slots[m]@.len() > 0
    &&& forall|i: int| 0 <= i < keys.len() && #[trigger] keys[i] is Some ==> exists|m: int|
        0 <= m < ids.len() && ids[m] == keys[i]->0 && #[trigger] slots[m]@.contains(i as usize)
    &&& forall|m: int, k: int| 0 <= m < slots.len() && 0 <= k < slots[m]@.len() ==> {
        let p = #[trigger] slots[m]@[k];
        p < keys.len() && keys[p as int] == Some(ids[m])
    }
}

/// The heap ids of the coroutines among `items`, position by position.
pub open spec fn coroutine_keys(items: Seq<GatherItem>) -> Seq<Option<usize>> {
    Seq::new(items.len(), |i: int| match items[i] {
        GatherItem::Coroutine(c) => Some(c),
        GatherItem::ExternalFuture(_) => None,
    })
}

/// The call ids of the external futures among `items`, position by position.
pub open spec fn external_keys(items: Seq<GatherItem>) -> Seq<Option<usize>> {
    Seq::new(items.len(), |i: int| match items[i] {
        GatherItem::Coroutine(_) => None,
        GatherItem::ExternalFuture(c) => Some(c as usize),
    })
}

/// Groups the positions of `keys` by key, in order of first occurrence, using a map
/// from key to plan position to find keys already seen.
fn group_positions(keys: &Vec<Option<usize>>) -> (r: (Vec<usize>, Vec<Vec<usize>>))
    ensures
        plan_of(keys@, r.0@, r.1@),
        r.0@.len() <= keys@.len(),
{
    let mut ids: Vec<usize> = Vec::new();
    let mut slots: Vec<Vec<usize>> = Vec::new();
    let mut seen = seen_map_new();
    let mut i: usize = 0;
    while i < keys.len()
        invariant
            i <= keys@.len(),
            ids@.len() == slots@.len(),
            ids@.len() <= i,
            ids@.no_duplicates(),
            forall|m: int| 0 <= m < slots@.len() ==> #[trigger] slots@[m]@.len() > 0,
            forall|k: usize| #[trigger] seen_map_contents(seen).contains_key(k) ==> seen_map_contents(seen)[k] < ids@.len()
                && ids@[seen_map_contents(seen)[k] as int] == k,
            forall|m: int| 0 <= m < ids@.len() ==> #[trigger] seen_map_contents(seen).contains_key(ids@[m]),
            forall|j: int| 0 <= j < i && #[trigger] keys@[j] is Some ==> exists|m: int|
                0 <= m < ids@.len() && ids@[m] == keys@[j]->0 && #[trigger] slots@[m]@.contains(j as usize),
            forall|m: int, k: int| 0 <= m < slots@.len() && 0 <= k < slots@[m]@.len() ==> {
                let p = #[trigger] slots@[m]@[k];
                p < i && keys@[p as int] == Some(ids@[m])
            },
        decreases keys@.len() - i,
    {
        if let Some(key) = keys[i] {
            match seen_map_get(&seen, key) {
                Some(p) => {
                    let ghost slots0 = slots@;
                    let mut cur = slots.remove(p);
                    cur.push(i);
                    slots.insert(p, cur);
                    proof {
                        assert(slots@ == slots0.update(p as int, slots@[p as int]));
                        assert(slots@[p as int]@ == slots0[p as int]@.push(i));
                        assert forall|j: int| 0 <= j < i + 1 && #[trigger] keys@[j] is Some implies exists|m: int|
                            0 <= m < ids@.len() && ids@[m] == keys@[j]->0 && #[trigger] slots@[m]@.contains(j as usize) by {
                            if j < i {
                                let m = choose|m: int| 0 <= m < ids@.len() && ids@[m] == keys@[j]->0 && #[trigger] slots0[m]@.contains(j as usize);
                                if m == p {
                                    let k = choose|k: int| 0 <= k < slots0[m]@.len() && slots0[m]@[k] == j as usize;
                                    assert(slots@[m]@[k] == j as usize);
                                    assert(slots@[m]@.contains(j as usize));
                                } else {
                                    assert(slots@[m] == slots0[m]);
                                    assert(slots@[m]@.contains(j as usize));
                                }
                            } else {
                                assert(slots@[p as int]@[slots0[p as int]@.len() as int] == i);
                                assert(slots@[p as int]@.contains(j as usize));
                            }
                        }
                        assert forall|m: int, k: int| 0 <= m < slots@.len() && 0 <= k < slots@[m]@.len() implies {
                            let q = #[trigger] slots@[m]@[k];
                            q < i + 1 && keys@[q as int] == Some(ids@[m])
                        } by {
                            if m == p {
                                if k < slots0[m]@.len() {
                                    assert(slots@[m]@[k] == slots0[m]@[k]);
                                }
                            } else {
                                assert(slots@[m] == slots0[m]);
                            }
                        }
                    }
                },
                None => {
                    let ghost ids0 = ids@;
                    let ghost slots0 = slots@;
                    seen_map_insert(&mut seen, key, ids.len());
                    ids.push(key);
                    let mut v: Vec<usize> = Vec::new();
                    v.push(i);
                    slots.push(v);
                    proof {
                        assert(!ids0.contains(key)) by {
                            if ids0.contains(key) {
                                let m = choose|m: int| 0 <= m < ids0.len() && ids0[m] == key;
                                assert(seen_map_contents(seen).contains_key(ids0[m]));
                            }
                        }
                        assert forall|a: int, b: int| 0 <= a < b < ids@.len() implies ids@[a] != ids@[b] by {
                            if b == ids@.len() - 1 {
                                assert(ids@[a] == ids0[a]);
                            }
                        }
                        assert forall|j: int| 0 <= j < i + 1 && #[trigger] keys@[j] is Some implies exists|m: int|
                            0 <= m < ids@.len() && ids@[m] == keys@[j]->0 && #[trigger] slots@[m]@.contains(j as usize) by {
                            if j < i {
                                let m = choose|m: int| 0 <= m < ids0.len() && ids0[m] == keys@[j]->0 && #[trigger] slots0[m]@.contains(j as usize);
                                assert(slots@[m] == slots0[m]);
                                assert(ids@[m] == ids0[m]);
                                assert(slots@[m]@.contains(j as usize));
                            } else {
                                let m = ids0.len() as int;
                                assert(slots@[m]@[0] == i);
                                assert(slots@[m]@.contains(j as usize));
                            }
                        }
                        assert forall|m: int, k: int| 0 <= m < slots@.len() && 0 <= k < slots@[m]@.len() implies {
                            let q = #[trigger] slots@[m]@[k];
                            q < i + 1 && keys@[q as int] == Some(ids@[m])
                        } by {
                            if m < slots0.len() {
                                assert(slots@[m] == slots0[m]);
                            }
                        }
                    }
                },
            }
        }
        i = i + 1;
    }
    (ids, slots)
}

/// A copy of a list of gathered awaitables.
fn copy_items(v: &Vec<GatherItem>) -> (r: Vec<GatherItem>)
    ensures
        r@ == v@,
{
    let mut r: Vec<GatherItem> = Vec::new();
    let mut i: usize = 0;
    while i < v.len()
        invariant
            i <= v@.len(),
            r@ == v@.take(i as int),
        decreases v@.len() - i,
    {
        r.push(v[i]);
        i = i + 1;
        assert(r@ == v@.take(i as int));
    }
    assert(v@.take(v@.len() as int) == v@);
    r
}

/// The coroutine and external-call keys of each awaitable.
fn item_keys(items: &Vec<GatherItem>) -> (r: (Vec<Option<usize>>, Vec<Option<usize>>))
    ensures
        r.0@ == coroutine_keys(items@),
        r.1@ == external_keys(items@),
{
    let mut cs: Vec<Option<usize>> = Vec::new();
    let mut es: Vec<Option<usize>> = Vec::new();
    let mut i: usize = 0;
    while i < items.len()
        invariant
            i <= items@.len(),
            cs@ == coroutine_keys(items@).take(i as int),
            es@ == external_keys(items@).take(i as int),
        decreases items@.len() - i,
    {
        match items[i] {
            GatherItem::Coroutine(c) => {
                cs.push(Some(c));
                es.push(None);
            },
            GatherItem::ExternalFuture(c) => {
                cs.push(None);
                es.push(Some(c as usize));
            },
        }
        i = i + 1;
        assert(cs@ == coroutine_keys(items@).take(i as int));
        assert(es@ == external_keys(items@).take(i as int));
    }
    assert(coroutine_keys(items@).take(items@.len() as int) == coroutine_keys(items@));
    assert(external_keys(items@).take(items@.len() as int) == external_keys(items@));
    (cs, es)
}

/// The call ids of a plan's external futures.
fn call_ids_of(ids: &Vec<usize>) -> (r: Vec<CallId>)
    ensures
        r@.len() == ids@.len(),
        forall|m: int| 0 <= m < ids@.len() ==> #[trigger] r@[m] == ids@[m] as u32,
{
    let mut r: Vec<CallId> = Vec::new();
    let mut i: usize = 0;
    while i < ids.len()
        invariant
            i <= ids@.len(),
            r@.len() == i,
            forall|m: int| 0 <= m < i ==> #[trigger] r@[m] == ids@[m] as u32,
        decreases ids@.len() - i,
    {
        r.push(#[verifier::truncate] (ids[i] as u32));
        i = i + 1;
    }
    r
}

/// A position the plan lists under an external call holds that call.
proof fn lemma_plan_slot_call(items: Seq<GatherItem>, ids: Seq<usize>, slots: Seq<Vec<usize>>, calls: Seq<CallId>, q: int, k: int)
    requires
        plan_of(external_keys(items), ids, slots),
        calls.len() == ids.len(),
        forall|m: int| 0 <= m < ids.len() ==> #[trigger] calls[m] == ids[m] as u32,
        0 <= q < slots.len(),
        0 <= k < slots[q]@.len(),
    ensures
        slots[q]@[k] < items.len(),
        items[slots[q]@[k] as int] == GatherItem::ExternalFuture(calls[q]),
        ids[q] == calls[q] as usize,
{
    let keys = external_keys(items);
    let p = slots[q]@[k];
    assert(keys[p as int] == Some(ids[q]));
    match items[p as int] {
        GatherItem::ExternalFuture(c) => {
            assert(keys[p as int] == Some(c as usize));
        },
        GatherItem::Coroutine(_) => {
            assert(keys[p as int] is None);
        },
    }
}

/// The plan's external call ids are distinct.
proof fn lemma_plan_calls_distinct(items: Seq<GatherItem>, ids: Seq<usize>, slots: Seq<Vec<usize>>, calls: Seq<CallId>)
    requires
        plan_of(external_keys(items), ids, slots),
        calls.len() == ids.len(),
        forall|m: int| 0 <= m < ids.len() ==> #[trigger] calls[m] == ids[m] as u32,
    ensures
        calls.no_duplicates(),
{
    assert forall|a: int, b: int| 0 <= a < calls.len() && 0 <= b < calls.len() && a != b implies calls[a] != calls[b] by {
        lemma_plan_slot_call(items, ids, slots, calls, a, 0);
        lemma_plan_slot_call(items, ids, slots, calls, b, 0);
    }
}

/// A plan over keys that are all absent is empty.
proof fn lemma_plan_empty(keys: Seq<Option<usize>>, ids: Seq<usize>, slots: Seq<Vec<usize>>)
    requires
        plan_of(keys, ids, slots),
        forall|i: int| 0 <= i < keys.len() ==> #[trigger] keys[i] is None,
    ensures
        ids.len() == 0,
{
    if ids.len() > 0 {
        let p = slots[0]@[0];
        assert(keys[p as int] == Some(ids[0]));
    }
}

/// The plan's external call ids are the external calls among the awaitables.
proof fn lemma_plan_calls(items: Seq<GatherItem>, ids: Seq<usize>, slots: Seq<Vec<usize>>, calls: Seq<CallId>)
    requires
        plan_of(external_keys(items), ids, slots),
        calls.len() == ids.len(),
        forall|m: int| 0 <= m < ids.len() ==> #[trigger] calls[m] == ids[m] as u32,
    ensures
        calls.to_set() == external_calls(items),
{
    let keys = external_keys(items);
    assert forall|c: CallId| #[trigger] calls.to_set().contains(c) implies external_calls(items).contains(c) by {
        let m = choose|m: int| 0 <= m < calls.len() && calls[m] == c;
        assert(slots[m]@.len() > 0);
        let p = slots[m]@[0];
        assert(p < keys.len() && keys[p as int] == Some(ids[m]));
        match items[p as int] {
            GatherItem::ExternalFuture(c2) => {
                assert(c2 as usize == ids[m]);
                assert(items[p as int] == GatherItem::ExternalFuture(c));
            },
            GatherItem::Coroutine(_) => {
                assert(keys[p as int] is None);
            },
        }
    }
    assert forall|c: CallId| #[trigger] external_calls(items).contains(c) implies calls.to_set().contains(c) by {
        let i = choose|i: int| 0 <= i < items.len() && items[i] == GatherItem::ExternalFuture(c);
        assert(keys[i] == Some(c as usize));
        let m = choose|m: int| 0 <= m < ids.len() && ids[m] == keys[i]->0 && #[trigger] slots[m]@.contains(i as usize);
        assert(calls[m] == c);
    }
    assert(calls.to_set() =~= external_calls(items));
}

/// Whether slot `k` is named by one of `writes[lo..hi]`.
pub open spec fn slot_written(writes: Seq<(usize, Value)>, lo: int, hi: int, k: int) -> bool {
    exists|i: int| lo <= i < hi && #[trigger] writes[i].0 == k
}

/// Result slots `after` are `before` with queued writes applied: a slot that some
/// write names holds the value of one of the writes naming it, the others are as
/// they were.
pub open spec fn writes_applied(before: Seq<Option<Value>>, writes: Seq<(usize, Value)>, after: Seq<Option<Value>>) -> bool {
    &&& after.len() == before.len()
    &&& forall|k: int| 0 <= k < before.len() ==> if slot_written(writes, 0, writes.len() as int, k) {
        exists|i: int| 0 <= i < writes.len() && #[trigger] writes[i].0 == k && after[k] == Some(writes[i].1)
    } else {
        #[trigger] after[k] == before[k]
    }
}

impl VM {
    /// Queues the value for every gather slot in `indices`: each slot but the last gets
    /// a new reference, the last takes the value itself; with no slot the value is
    /// dropped.
    fn fan_out(&mut self, indices: &Vec<usize>, value: Value, writes: &mut Vec<(usize, Value)>)
        requires
            old(self).heap.wf(),
        ensures
            final(self).heap.wf(),
            final(self).heap@.slots.len() == old(self).heap@.slots.len(),
            forall|j: HeapId| #[trigger] final(self).heap@.live(j) ==> old(self).heap@.live(j) && final(self).heap@.data(j) == old(self).heap@.data(j),
            indices@.len() > 0 ==> same_objects(old(self).heap@, final(self).heap@),
            final(self).heap@.free.len() >= old(self).heap@.free.len(),
            final(writes)@.len() == old(writes)@.len() + indices@.len(),
            forall|k: int| 0 <= k < old(writes)@.len() ==> #[trigger] final(writes)@[k] == old(writes)@[k],
            forall|k: int| 0 <= k < indices@.len() ==> #[trigger] final(writes)@[old(writes)@.len() + k] == (indices@[k], value),
            final(self).scheduler == old(self).scheduler,
            final(self).frames == old(self).frames,
            final(self).stack == old(self).stack,
    {
        let n = indices.len();
        if n == 0 {
            value.drop_with_heap(&mut self.heap);
            return;
        }
        let mut k: usize = 0;
        while k + 1 < n
            invariant
                n == indices@.len(),
                n > 0,
                k < n,
                self.heap.wf(),
                same_objects(old(self).heap@, self.heap@),
                writes@.len() == old(writes)@.len() + k,
                forall|q: int| 0 <= q < old(writes)@.len() ==> #[trigger] writes@[q] == old(writes)@[q],
                forall|q: int| 0 <= q < k ==> #[trigger] writes@[old(writes)@.len() + q] == (indices@[q], value),
                self.scheduler == old(self).scheduler,
                self.frames == old(self).frames,
                self.stack == old(self).stack,
            decreases n - k,
        {
            let ghost h = self.heap@;
            let v = value.clone_with_heap(&mut self.heap);
            proof {
                crate::heap::lemma_same_objects_trans(old(self).heap@, h, self.heap@);
            }
            writes.push((indices[k], v));
            k = k + 1;
        }
        writes.push((indices[n - 1], value));
    }

    /// Stores queued values in the result slots of gather `gather_id`. Values for
    /// slots the gather does not have (or all of them, when `gather_id` is no gather)
    /// are handed back for the caller to drop.
    fn store_gather_writes(&mut self, gather_id: HeapId, writes: Vec<(usize, Value)>) -> (leftover: Vec<Value>)
        requires
            old(self).heap.wf(),
        ensures
            final(self).heap.wf(),
            final(self).heap@.free == old(self).heap@.free,
            final(self).heap@.slots.len() == old(self).heap@.slots.len(),
            forall|j: HeapId| #[trigger] final(self).heap@.live(j) == old(self).heap@.live(j),
            forall|j: HeapId| #[trigger] old(self).heap@.live(j) && j != gather_id ==> final(self).heap@.data(j) == old(self).heap@.data(j),
            is_gather(final(self).heap@, gather_id) ==> is_gather(old(self).heap@, gather_id),
            is_gather(old(self).heap@, gather_id) ==> is_gather(final(self).heap@, gather_id)
                && final(self).heap@.data(gather_id)->GatherFuture_0.items == old(self).heap@.data(gather_id)->GatherFuture_0.items
                && final(self).heap@.data(gather_id)->GatherFuture_0.task_ids == old(self).heap@.data(gather_id)->GatherFuture_0.task_ids
                && final(self).heap@.data(gather_id)->GatherFuture_0.pending_calls == old(self).heap@.data(gather_id)->GatherFuture_0.pending_calls
                && final(self).heap@.data(gather_id)->GatherFuture_0.waiter == old(self).heap@.data(gather_id)->GatherFuture_0.waiter
                && writes_applied(old(self).heap@.data(gather_id)->GatherFuture_0.results@, writes@,
                    final(self).heap@.data(gather_id)->GatherFuture_0.results@),
            is_gather(old(self).heap@, gather_id) && (forall|i: int| 0 <= i < writes@.len()
                ==> #[trigger] writes@[i].0 < old(self).heap@.data(gather_id)->GatherFuture_0.results@.len()) ==> leftover@.len() == 0,
            final(self).scheduler == old(self).scheduler,
            final(self).frames == old(self).frames,
            final(self).stack == old(self).stack,
    {
        let len = if self.heap.is_live(gather_id) {
            match self.heap.get(gather_id) {
                HeapData::GatherFuture(g) => Some(g.results.len()),
                _ => None,
            }
        } else {
            None
        };
        let mut writes = writes;
        let mut leftover: Vec<Value> = Vec::new();
        match len {
            Some(n) => {
                let ghost h0 = self.heap@;
                match self.heap.data_mut(gather_id) {
                    HeapData::GatherFuture(g) => {
                        let ghost items0 = g.items;
                        let ghost tasks0 = g.task_ids;
                        let ghost calls0 = g.pending_calls;
                        let ghost waiter0 = g.waiter;
                        let ghost results0 = g.results@;
                        let ghost all = writes@;
                        while writes.len() > 0
                            invariant
                                g.results@.len() == n,
                                results0.len() == n,
                                g.items == items0,
                                g.task_ids == tasks0,
                                g.pending_calls == calls0,
                                g.waiter == waiter0,
                                writes@ == all.take(writes@.len() as int),
                                writes@.len() <= all.len(),
                                (forall|i: int| 0 <= i < all.len() ==> #[trigger] all[i].0 < n) ==> leftover@.len() == 0,
                                forall|k: int| 0 <= k < n ==> if slot_written(all, writes@.len() as int, all.len() as int, k) {
                                    exists|i: int| writes@.len() <= i < all.len() && #[trigger] all[i].0 == k && g.results@[k] == Some(all[i].1)
                                } else {
                                    #[trigger] g.results@[k] == results0[k]
                                },
                            decreases writes@.len(),
                        {
                            let ghost p = writes@.len() - 1;
                            let ghost r0 = g.results@;
                            let (i, v) = writes.pop().unwrap();
                            proof {
                                assert(all[p] == (i, v));
                                assert(writes@ == all.take(p));
                            }
                            if i < g.results.len() {
                                g.results.set(i, Some(v));
                            } else {
                                leftover.push(v);
                            }
                            proof {
                                assert forall|k: int| 0 <= k < n implies if slot_written(all, p, all.len() as int, k) {
                                    exists|j: int| p <= j < all.len() && #[trigger] all[j].0 == k && g.results@[k] == Some(all[j].1)
                                } else {
                                    #[trigger] g.results@[k] == results0[k]
                                } by {
                                    if k == i {
                                        assert(all[p].0 == k);
                                    } else {
                                        assert(g.results@[k] == r0[k]);
                                        if slot_written(all, p, all.len() as int, k) {
                                            let j = choose|j: int| p <= j < all.len() && #[trigger] all[j].0 == k;
                                            assert(j != p);
                                            assert(slot_written(all, p + 1, all.len() as int, k));
                                        } else {
                                            if slot_written(all, p + 1, all.len() as int, k) {
                                                let j = choose|j: int| p + 1 <= j < all.len() && #[trigger] all[j].0 == k;
                                                assert(slot_written(all, p, all.len() as int, k));
                                            }
                                        }
                                    }
                                }
                            }
                        }
                    },
                    _ => {},
                }
                proof {
                    assert forall|j: HeapId| #[trigger] self.heap@.live(j) == h0.live(j) by {
                        if j != gather_id && (j as int) < h0.slots.len() {
                            assert(self.heap@.slots[j as int] == h0.slots[j as int]);
                        }
                    }
                    assert forall|j: HeapId| #[trigger] h0.live(j) && j != gather_id implies self.heap@.data(j) == h0.data(j) by {
                        assert(self.heap@.slots[j as int] == h0.slots[j as int]);
                    }
                }
            },
            None => {
                while writes.len() > 0
                    invariant
                        true,
                    decreases writes@.len(),
                {
                    let (_, v) = writes.pop().unwrap();
                    leftover.push(v);
                }
            },
        }
        leftover
    }
}

/// The values of filled result slots, an unfilled slot giving `None`.
pub open spec fn filled(rs: Seq<Option<Value>>) -> Seq<Value> {
    Seq::new(rs.len(), |i: int| match rs[i] {
        Some(v) => v,
        None => Value::NoneValue,
    })
}

/// The values of result slots, an unfilled slot giving `None`.
pub(crate) fn unwrap_results(rs: Vec<Option<Value>>) -> (r: Vec<Value>)
    ensures
        r@ == filled(rs@),
{
    let ghost orig = rs@;
    let mut rs = rs;
    let mut out: Vec<Value> = Vec::new();
    while rs.len() > 0
        invariant
            out@.len() + rs@.len() == orig.len(),
            rs@ == orig.skip(out@.len() as int),
            out@ == filled(orig).take(out@.len() as int),
        decreases rs@.len(),
    {
        let r = rs.remove(0);
        let ghost k: int = out@.len() as int;
        match r {
            Some(v) => out.push(v),
            None => out.push(Value::NoneValue),
        }
        assert(out@ == filled(orig).take(k + 1));
        assert(rs@ == orig.skip(k + 1));
    }
    assert(filled(orig).take(orig.len() as int) == filled(orig));
    out
}

impl VM {
    /// Takes the results out of gather `gather_id` and stores them as a new list.
    /// MemoryError when the heap has no room for the list.
    fn take_gather_list(&mut self, gather_id: HeapId) -> (r: Result<HeapId, RunError>)
        requires
            old(self).heap.wf(),
            is_gather(old(self).heap@, gather_id),
        ensures
            final(self).heap.wf(),
            final(self).scheduler == old(self).scheduler,
            final(self).frames == old(self).frames,
            final(self).stack == old(self).stack,
            match r {
                Ok(id) => final(self).heap@.live(id)
                    && (final(self).heap@.data(id) matches HeapData::List(v)
                    && v@ == filled(old(self).heap@.data(gather_id)->GatherFuture_0.results@)),
                Err(e) => e.exc_type == ExcType::MemoryError && !crate::heap::has_room(old(self).heap@),
            },
    {
        let mut results: Vec<Option<Value>> = Vec::new();
        match self.heap.data_mut(gather_id) {
            HeapData::GatherFuture(g) => {
                core::mem::swap(&mut results, &mut g.results);
            },
            _ => {},
        }
        let values = unwrap_results(results);
        let id = self.heap.allocate(HeapData::List(values))?;
        Ok(id)
    }
}

/// Whether every awaitable of a gather is an external future.
pub open spec fn all_external(items: Seq<GatherItem>) -> bool {
    forall|k: int| 0 <= k < items.len() ==> #[trigger] items[k] is ExternalFuture
}

/// The results of the external futures a gather awaits, in the gather's order.
pub open spec fn resolved_results(items: Seq<GatherItem>, resolved: Map<CallId, Value>) -> Seq<Value> {
    Seq::new(items.len(), |k: int| resolved[items[k]->ExternalFuture_0])
}

/// Whether awaiting gather `id` must wait on the host: it is awaited for the first
/// time by the running task (which is ready, as a running task is), awaits only
/// external futures, none awaited before, some not yet resolved, and no other task
/// is ready to run.
pub open spec fn gather_waits_on_host(heap: HeapView, s: Scheduler, id: HeapId) -> bool {
    let items = gather_items(heap, id);
    &&& gather_waiter(heap, id) is None
    &&& items.len() > 0
    &&& all_external(items)
    &&& external_calls(items).disjoint(s.consumed())
    &&& !external_calls(items).subset_of(s.resolved().dom())
    &&& s.queue().len() == 0
    &&& s.current() is Some
    &&& s.tasks()[s.current()->0].state is Ready
}

/// Whether task `k` of `s` can start: it exists, and it has a saved context, runs no
/// coroutine, or runs a coroutine of `heap` that has not started.
pub open spec fn starts_cleanly(heap: HeapView, s: Scheduler, k: TaskId) -> bool {
    &&& s.tasks().contains_key(k)
    &&& {
        ||| s.tasks()[k].frames@.len() > 0
        ||| s.tasks()[k].coroutine_id is None
        ||| fresh_coroutine(heap, s.tasks()[k].coroutine_id->0)
    }
}

/// Every coroutine that gather `id` awaits is on the heap and has not started.
pub open spec fn gathered_coroutines_fresh(heap: HeapView, id: HeapId) -> bool {
    let items = gather_items(heap, id);
    forall|k: int| 0 <= k < items.len() && #[trigger] items[k] is Coroutine ==> fresh_coroutine(heap, items[k]->Coroutine_0)
}

/// Whether the task that runs first once gather `id` is awaited can start: the
/// awaiting task is the running task, ready and with an id below the next one; the
/// gather has a result slot per awaitable; and either the first queued task is
/// another task, older than the next id, that can start, or nothing is queued and
/// every coroutine the gather awaits has not started.
pub open spec fn first_runner_starts(heap: HeapView, s: Scheduler, id: HeapId) -> bool {
    let items = gather_items(heap, id);
    &&& s.current() is Some
    &&& s.tasks().contains_key(s.current()->0)
    &&& s.tasks()[s.current()->0].state is Ready
    &&& s.current()->0 < s.next_task()
    &&& heap.data(id)->GatherFuture_0.results@.len() == items.len()
    &&& if s.queue().len() > 0 {
        &&& s.queue()[0] != s.current()->0
        &&& s.queue()[0] < s.next_task()
        &&& starts_cleanly(heap, s, s.queue()[0])
    } else {
        forall|k: int| 0 <= k < items.len() && #[trigger] items[k] is Coroutine ==> fresh_coroutine(heap, items[k]->Coroutine_0)
    }
}

/// Whether heap `b` has the objects of heap `a`, each with the same data, except
/// perhaps object `c`.
pub open spec fn heap_kept_but(a: HeapView, b: HeapView, c: HeapId) -> bool {
    forall|j: HeapId| j != c ==> (#[trigger] b.live(j) == a.live(j) && (a.live(j) ==> b.data(j) == a.data(j)))
}

/// Whether `c` is a coroutine on the heap that has not started (and whose locals fit
/// a frame).
pub open spec fn fresh_coroutine(heap: HeapView, c: HeapId) -> bool {
    &&& coroutine_at(heap, c) is Some
    &&& coroutine_at(heap, c)->0.state == CoroutineState::New
    &&& coroutine_at(heap, c)->0.namespace@.len() <= u16::MAX
}

/// Task `k` of `s` was spawned for a fresh coroutine of `heap` (other than `gid`),
/// with an id from `floor` on and below the next one, and has not run yet.
pub open spec fn spawned_task(s: Scheduler, k: TaskId, floor: TaskId, heap: HeapView, gid: HeapId) -> bool {
    &&& s.tasks().contains_key(k)
    &&& floor <= k < s.next_task()
    &&& s.tasks()[k].frames@.len() == 0
    &&& s.tasks()[k].coroutine_id is Some
    &&& s.tasks()[k].coroutine_id->0 != gid
    &&& fresh_coroutine(heap, s.tasks()[k].coroutine_id->0)
}

/// Every task listed in `ids` was spawned as [`spawned_task`] says.
pub open spec fn spawned_fresh(s: Scheduler, ids: Seq<TaskId>, floor: TaskId, heap: HeapView, gid: HeapId) -> bool {
    forall|p: int| 0 <= p < ids.len() ==> spawned_task(s, #[trigger] ids[p], floor, heap, gid)
}

/// Whether awaiting gather `id` starts fresh coroutines with nothing else queued:
/// the gather is awaited for the first time by a running task (whose id is below
/// the next task id), awaits at least one coroutine, every coroutine it awaits is
/// on the heap and has not started, its external futures were neither awaited nor
/// resolved before, and no task is queued.
pub open spec fn gather_spawns_fresh(heap: HeapView, s: Scheduler, id: HeapId) -> bool {
    let items = gather_items(heap, id);
    &&& gather_waiter(heap, id) is None
    &&& !all_external(items)
    &&& forall|k: int| 0 <= k < items.len() && #[trigger] items[k] is Coroutine ==> fresh_coroutine(heap, items[k]->Coroutine_0)
    &&& forall|c: CallId| #[trigger] external_calls(items).contains(c) ==> !s.consumed().contains(c) && !s.resolved().contains_key(c)
    &&& s.queue().len() == 0
    &&& s.current() is Some
    &&& s.current()->0 < s.next_task()
    &&& s.tasks()[s.current()->0].state is Ready
}

/// Whether awaiting gather `id` finds all it needs at once: it is awaited for the
/// first time, awaits only external futures that were not awaited before and have
/// all been resolved, and has a result slot per awaitable.
pub open spec fn gathers_resolved(heap: HeapView, s: Scheduler, id: HeapId) -> bool {
    let items = gather_items(heap, id);
    &&& gather_waiter(heap, id) is None
    &&& items.len() > 0
    &&& all_external(items)
    &&& external_calls(items).disjoint(s.consumed())
    &&& external_calls(items).subset_of(s.resolved().dom())
    &&& heap.data(id)->GatherFuture_0.results@.len() == items.len()
}

impl VM {
    /// `await gather(...)`: runs the gathered awaitables concurrently. A gather can
    /// be awaited once, and an external future only once across all awaits and
    /// gathers: RuntimeError otherwise. An empty gather gives an empty list at once.
    /// Otherwise the running task becomes the gather's waiter; each distinct
    /// external future is marked awaited and either gives its result to every slot
    /// it fills or is registered to do so when resolved; each distinct coroutine is
    /// spawned as a task that fills its slots when it completes. When nothing is
    /// left outstanding the results come back as a list at once; otherwise the
    /// running task blocks on the gather and another task runs (or the host is asked
    /// to resolve calls).
    #[verifier::rlimit(60)]
    #[verifier::spinoff_prover]
    pub fn await_gather_future(&mut self, heap_id: HeapId) -> (r: Result<AwaitResult, RunError>)
        requires
            old(self).heap.wf(),
            old(self).scheduler.wf(),
            is_gather(old(self).heap@, heap_id),
            old(self).scheduler.current() matches Some(t) ==> old(self).scheduler.tasks().contains_key(t),
            old(self).scheduler.next_task() + gather_items(old(self).heap@, heap_id).len() <= u32::MAX,
        ensures
            final(self).heap.wf(),
            final(self).scheduler.wf(),
            r matches Err(e) ==> e.exc_type == ExcType::RuntimeError || e.exc_type == ExcType::MemoryError,
            r matches Err(e) && e.exc_type == ExcType::MemoryError ==> !crate::heap::has_room(old(self).heap@),
            r matches Err(e) && e.exc_type == ExcType::RuntimeError ==> {
                ||| gather_waiter(old(self).heap@, heap_id) is Some
                ||| !external_calls(gather_items(old(self).heap@, heap_id)).disjoint(old(self).scheduler.consumed())
                ||| old(self).scheduler.queue().len() > 0
                ||| !all_external(gather_items(old(self).heap@, heap_id))
            },
            r matches Err(e) && e.exc_type == ExcType::RuntimeError ==> {
                ||| gather_waiter(old(self).heap@, heap_id) is Some
                ||| !external_calls(gather_items(old(self).heap@, heap_id)).disjoint(old(self).scheduler.consumed())
                ||| !first_runner_starts(old(self).heap@, old(self).scheduler, heap_id)
            },
            gather_waiter(old(self).heap@, heap_id) is None
                && external_calls(gather_items(old(self).heap@, heap_id)).disjoint(old(self).scheduler.consumed())
                && first_runner_starts(old(self).heap@, old(self).scheduler, heap_id)
                && ({
                    ||| !all_external(gather_items(old(self).heap@, heap_id)) && gathered_coroutines_fresh(old(self).heap@, heap_id)
                    ||| old(self).scheduler.queue().len() > 0
                        && !external_calls(gather_items(old(self).heap@, heap_id)).subset_of(old(self).scheduler.resolved().dom())
                })
                ==> r == Ok::<AwaitResult, RunError>(AwaitResult::FramePushed),
            gather_waiter(old(self).heap@, heap_id) is None
                && external_calls(gather_items(old(self).heap@, heap_id)).disjoint(old(self).scheduler.consumed()) ==>
                forall|c: CallId| #[trigger] external_calls(gather_items(old(self).heap@, heap_id)).contains(c) && !old(self).scheduler.resolved().contains_key(c)
                    ==> final(self).scheduler.waiters().contains_key(c) && final(self).scheduler.waiters()[c].0 == heap_id,
            gather_spawns_fresh(old(self).heap@, old(self).scheduler, heap_id) ==> {
                let t = old(self).scheduler.current()->0;
                &&& r == Ok::<AwaitResult, RunError>(AwaitResult::FramePushed)
                &&& final(self).scheduler.tasks().contains_key(t)
                &&& final(self).scheduler.tasks()[t].state == TaskState::BlockedOnGather(heap_id)
                &&& is_gather(final(self).heap@, heap_id)
                &&& gather_waiter(final(self).heap@, heap_id) == Some(t)
                &&& final(self).scheduler.current() is Some && final(self).scheduler.current() != Some(t)
            },
            gather_waits_on_host(old(self).heap@, old(self).scheduler, heap_id) ==> {
                let t = old(self).scheduler.current()->0;
                let items = gather_items(old(self).heap@, heap_id);
                &&& r matches Ok(AwaitResult::Yield(ids)) && ids@.to_set() == old(self).scheduler.pending().dom()
                &&& final(self).scheduler.tasks()[t].state == TaskState::BlockedOnGather(heap_id)
                &&& forall|c: CallId| #[trigger] external_calls(items).contains(c) && !old(self).scheduler.resolved().contains_key(c)
                    ==> final(self).scheduler.waiters().contains_key(c) && final(self).scheduler.waiters()[c].0 == heap_id
                &&& is_gather(final(self).heap@, heap_id) ==> gather_waiter(final(self).heap@, heap_id) == Some(t)
            },
            gather_waiter(old(self).heap@, heap_id) is Some ==> {
                &&& r matches Err(e) && is_error(e, ExcType::RuntimeError, reused_gather_message())
                &&& final(self).heap@ == old(self).heap@
                &&& final(self).scheduler.tasks() == old(self).scheduler.tasks()
                &&& final(self).scheduler.queue() == old(self).scheduler.queue()
                &&& final(self).scheduler.same_calls(&old(self).scheduler)
            },
            gather_waiter(old(self).heap@, heap_id) is None && gather_items(old(self).heap@, heap_id).len() == 0 ==> {
                ||| (r matches Ok(AwaitResult::ValueReady(Value::Ref(l))) && final(self).heap@.live(l)
                    && (final(self).heap@.data(l) matches HeapData::List(v) && v@.len() == 0))
                ||| (r matches Err(e) && e.exc_type == ExcType::MemoryError)
            },
            gather_waiter(old(self).heap@, heap_id) is None && !external_calls(gather_items(old(self).heap@, heap_id)).disjoint(old(self).scheduler.consumed()) ==> {
                &&& r matches Err(e) && is_error(e, ExcType::RuntimeError, reused_future_message())
                &&& final(self).heap@ == old(self).heap@
                &&& final(self).scheduler.tasks() == old(self).scheduler.tasks()
                &&& final(self).scheduler.same_calls(&old(self).scheduler)
            },
            gather_waiter(old(self).heap@, heap_id) is None && gather_items(old(self).heap@, heap_id).len() > 0
                && external_calls(gather_items(old(self).heap@, heap_id)).disjoint(old(self).scheduler.consumed()) ==>
                final(self).scheduler.consumed() == old(self).scheduler.consumed() + external_calls(gather_items(old(self).heap@, heap_id)),
            gathers_resolved(old(self).heap@, old(self).scheduler, heap_id) ==> {
                ||| (r matches Ok(AwaitResult::ValueReady(Value::Ref(l))) && final(self).heap@.live(l)
                    && (final(self).heap@.data(l) matches HeapData::List(v)
                    && v@ == resolved_results(gather_items(old(self).heap@, heap_id), old(self).scheduler.resolved())))
                ||| (r matches Err(e) && e.exc_type == ExcType::MemoryError)
            },
    {
        let (has_waiter, items) = match self.heap.get(heap_id) {
            HeapData::GatherFuture(g) => (g.waiter.is_some(), copy_items(&g.items)),
            _ => vstd::pervasive::unreached(),
        };
        if has_waiter {
            return Err(RunError::from_str(ExcType::RuntimeError, "cannot reuse already awaited gather"));
        }
        if items.len() == 0 {
            proof {
                assert(external_calls(items@) =~= Set::<CallId>::empty());
            }
            let id = self.heap.allocate(HeapData::List(Vec::new()))?;
            return Ok(AwaitResult::ValueReady(Value::Ref(id)));
        }
        let mut k: usize = 0;
        while k < items.len()
            invariant
                k <= items@.len(),
                forall|j: int| 0 <= j < k && #[trigger] items@[j] is ExternalFuture ==> !self.scheduler.consumed().contains(items@[j]->ExternalFuture_0),
                self.heap.wf(),
                self.scheduler.wf(),
                self.heap@ == old(self).heap@,
                self.scheduler.tasks() == old(self).scheduler.tasks(),
                self.scheduler.queue() == old(self).scheduler.queue(),
                self.scheduler.same_calls(&old(self).scheduler),
                items@ == gather_items(old(self).heap@, heap_id),
                gather_waiter(old(self).heap@, heap_id) is None,
            decreases items@.len() - k,
        {
            match items[k] {
                GatherItem::ExternalFuture(c) => {
                    if self.scheduler.is_consumed(c) {
                        proof {
                            assert(external_calls(items@).contains(c));
                        }
                        return Err(RunError::from_str(ExcType::RuntimeError, "cannot reuse already awaited future"));
                    }
                },
                GatherItem::Coroutine(_) => {},
            }
            k = k + 1;
        }
        proof {
            assert forall|c: CallId| #[trigger] external_calls(items@).contains(c) implies !self.scheduler.consumed().contains(c) by {
                let j = choose|j: int| 0 <= j < items@.len() && items@[j] == GatherItem::ExternalFuture(c);
                assert(items@[j] is ExternalFuture);
            }
        }
        let current = self.scheduler.current_task_id();
        match self.heap.data_mut(heap_id) {
            HeapData::GatherFuture(g) => {
                g.waiter = current;
            },
            _ => {},
        }
        let (ckeys, ekeys) = item_keys(&items);
        let (coro_ids, coro_slots) = group_positions(&ckeys);
        let (ext_ids, ext_slots) = group_positions(&ekeys);
        let calls = call_ids_of(&ext_ids);
        let ghost law = gathers_resolved(old(self).heap@, old(self).scheduler, heap_id);
        let ghost host = gather_waits_on_host(old(self).heap@, old(self).scheduler, heap_id);
        let ghost ext_only = all_external(items@);
        let ghost fresh = gather_spawns_fresh(old(self).heap@, old(self).scheduler, heap_id);
        let ghost runs = first_runner_starts(old(self).heap@, old(self).scheduler, heap_id);
        let ghost runs0 = runs && old(self).scheduler.queue().len() == 0;
        let ghost runsq = runs && old(self).scheduler.queue().len() > 0;
        let ghost fi = gathered_coroutines_fresh(old(self).heap@, heap_id);
        proof {
            lemma_plan_calls(items@, ext_ids@, ext_slots@, calls@);
            lemma_plan_calls_distinct(items@, ext_ids@, ext_slots@, calls@);
            if !ext_only {
                let k = choose|k: int| 0 <= k < items@.len() && !(#[trigger] items@[k] is ExternalFuture);
                assert(items@[k] is Coroutine);
                assert(ckeys@[k] is Some);
                assert(coro_ids@.len() > 0);
            }
            if fresh {
                let k = choose|k: int| 0 <= k < items@.len() && !(#[trigger] items@[k] is ExternalFuture);
                assert(items@[k] is Coroutine);
                assert(ckeys@[k] is Some);
                assert(coro_ids@.len() > 0);
                assert forall|q: int| 0 <= q < calls@.len() implies !old(self).scheduler.resolved().contains_key(#[trigger] calls@[q]) by {
                    assert(calls@.to_set().contains(calls@[q]));
                }
            }
            if ext_only {
                assert forall|i: int| 0 <= i < ckeys@.len() implies #[trigger] ckeys@[i] is None by {
                    assert(items@[i] is ExternalFuture);
                }
                lemma_plan_empty(ckeys@, coro_ids@, coro_slots@);
            }
            if host {
                assert forall|i: int| 0 <= i < ckeys@.len() implies #[trigger] ckeys@[i] is None by {
                    assert(items@[i] is ExternalFuture);
                }
                lemma_plan_empty(ckeys@, coro_ids@, coro_slots@);
            }
            if law {
                assert forall|i: int| 0 <= i < ckeys@.len() implies #[trigger] ckeys@[i] is None by {
                    assert(items@[i] is ExternalFuture);
                }
                lemma_plan_empty(ckeys@, coro_ids@, coro_slots@);
                assert forall|m: int| 0 <= m < calls@.len() implies old(self).scheduler.resolved().contains_key(#[trigger] calls@[m]) by {
                    assert(calls@.to_set().contains(calls@[m]));
                }
            }
        }
        let ghost s0 = self.scheduler;
        let ghost h0 = self.heap@;
        proof {
            assert forall|q: int, i: int| 0 <= q < ext_slots@.len() && 0 <= i < ext_slots@[q]@.len()
                implies #[trigger] ext_slots@[q]@[i] < items@.len() by {
                assert(external_keys(items@).len() == items@.len());
            }
            assert(h0.free == old(self).heap@.free && h0.slots.len() == old(self).heap@.slots.len());
            assert(is_gather(h0, heap_id) && gather_waiter(h0, heap_id) == old(self).scheduler.current());
            assert(s0.pending() == old(self).scheduler.pending());
            assert(s0.resolved() == old(self).scheduler.resolved());
            assert(h0.data(heap_id)->GatherFuture_0.results == old(self).heap@.data(heap_id)->GatherFuture_0.results);
        }
        let mut pending_calls: Vec<CallId> = Vec::new();
        let mut resolved_vals: Vec<(Vec<usize>, Value)> = Vec::new();
        let ghost ext_all = ext_slots@;
        let mut ext_slots = ext_slots;
        let mut m: usize = 0;
        while m < calls.len()
            invariant
                m <= calls@.len(),
                ext_all.len() == calls@.len(),
                ext_slots@ == ext_all.skip(m as int),
                forall|q: int| 0 <= q < ext_all.len() ==> #[trigger] ext_all[q]@.len() > 0,
                forall|q: int| 0 <= q < resolved_vals@.len() ==> #[trigger] resolved_vals@[q].0@.len() > 0,
                forall|q: int, i: int| 0 <= q < ext_all.len() && 0 <= i < ext_all[q]@.len() ==> #[trigger] ext_all[q]@[i] < items@.len(),
                forall|q: int, i: int| 0 <= q < resolved_vals@.len() && 0 <= i < resolved_vals@[q].0@.len() ==> #[trigger] resolved_vals@[q].0@[i] < items@.len(),
                self.scheduler.consumed() == s0.consumed() + calls@.take(m as int).to_set(),
                self.scheduler.tasks() == s0.tasks(),
                self.scheduler.queue() == s0.queue(),
                self.scheduler.current() == s0.current(),
                self.scheduler.next_task() == s0.next_task(),
                self.heap@ == h0,
                self.heap.wf(),
                calls@.no_duplicates(),
                self.scheduler.pending() == s0.pending(),
                forall|q: int| m <= q < calls@.len() ==> (self.scheduler.resolved().contains_key(#[trigger] calls@[q]) == s0.resolved().contains_key(calls@[q])),
                fresh ==> resolved_vals@.len() == 0,
                fresh ==> forall|q: int| 0 <= q < calls@.len() ==> !s0.resolved().contains_key(#[trigger] calls@[q]),
                forall|q: int| 0 <= q < m && !s0.resolved().contains_key(#[trigger] calls@[q]) ==> pending_calls@.len() > 0
                    && self.scheduler.waiters().contains_key(calls@[q]) && self.scheduler.waiters()[calls@[q]].0 == heap_id,
                law ==> {
                    &&& pending_calls@.len() == 0
                    &&& resolved_vals@.len() == m
                    &&& forall|q: int| 0 <= q < m ==> #[trigger] resolved_vals@[q].0 == ext_all[q]
                        && resolved_vals@[q].1 == s0.resolved()[calls@[q]]
                    &&& forall|q: int| m <= q < calls@.len() ==> self.scheduler.resolved().contains_key(#[trigger] calls@[q])
                        && self.scheduler.resolved()[calls@[q]] == s0.resolved()[calls@[q]]
                },
            decreases calls@.len() - m,
        {
            let c = calls[m];
            let idxs = ext_slots.remove(0);
            proof {
                assert(ext_slots@ == ext_all.skip(m + 1));
                assert(idxs == ext_all[m as int]);
            }
            self.scheduler.mark_consumed(c);
            match self.scheduler.take_resolved(c) {
                Some(v) => resolved_vals.push((idxs, v)),
                None => {
                    pending_calls.push(c);
                    self.scheduler.register_gather_for_call(c, heap_id, idxs);
                },
            }
            proof {
                assert(calls@.take(m + 1) == calls@.take(m as int).push(c));
                calls@.take(m as int).lemma_push_to_set_commute(c);
                if law {
                    assert forall|q: int| m + 1 <= q < calls@.len() implies self.scheduler.resolved().contains_key(#[trigger] calls@[q])
                        && self.scheduler.resolved()[calls@[q]] == s0.resolved()[calls@[q]] by {
                        assert(calls@[q] != calls@[m as int]);
                    }
                }
                assert forall|q: int| m + 1 <= q < calls@.len() implies (self.scheduler.resolved().contains_key(#[trigger] calls@[q]) == s0.resolved().contains_key(calls@[q])) by {
                    assert(calls@[q] != calls@[m as int]);
                }
                assert forall|q: int| 0 <= q < m + 1 && !s0.resolved().contains_key(#[trigger] calls@[q]) implies pending_calls@.len() > 0
                    && self.scheduler.waiters().contains_key(calls@[q]) && self.scheduler.waiters()[calls@[q]].0 == heap_id by {
                    if q < m {
                        assert(calls@[q] != calls@[m as int]);
                    }
                }
            }
            m = m + 1;
        }
        proof {
            assert(calls@.take(calls@.len() as int) == calls@);
            if !external_calls(items@).subset_of(old(self).scheduler.resolved().dom()) {
                let c = choose|c: CallId| external_calls(items@).contains(c) && !old(self).scheduler.resolved().dom().contains(c);
                assert(calls@.to_set().contains(c));
                let q = choose|q: int| 0 <= q < calls@.len() && calls@[q] == c;
                assert(!s0.resolved().contains_key(calls@[q]));
                assert(pending_calls@.len() > 0);
            }
        }
        let ghost s1 = self.scheduler;
        let ghost coro_all = coro_slots@;
        proof {
            if fresh {
                assert(s1.queue().len() == 0);
                assert(s1.tasks() == old(self).scheduler.tasks());
                assert(s1.current() == old(self).scheduler.current());
                assert(s1.next_task() == old(self).scheduler.next_task());
                assert forall|j: HeapId| j != heap_id && #[trigger] old(self).heap@.live(j) implies h0.live(j) && h0.data(j) == old(self).heap@.data(j) by {
                    assert(h0.slots[j as int] == old(self).heap@.slots[j as int]);
                }
            }
            assert forall|j: HeapId| j != heap_id && #[trigger] old(self).heap@.live(j) implies h0.live(j) && h0.data(j) == old(self).heap@.data(j) by {
                assert(h0.slots[j as int] == old(self).heap@.slots[j as int]);
            }
            if runs {
                assert(s1.queue() == old(self).scheduler.queue());
                assert(s1.tasks() == old(self).scheduler.tasks());
                assert(s1.current() == old(self).scheduler.current());
                assert(s1.next_task() == old(self).scheduler.next_task());
                assert forall|j: HeapId| j != heap_id && #[trigger] old(self).heap@.live(j) implies h0.live(j) && h0.data(j) == old(self).heap@.data(j) by {
                    assert(h0.slots[j as int] == old(self).heap@.slots[j as int]);
                }
            }
        }
        let mut coro_slots = coro_slots;
        let mut task_ids: Vec<TaskId> = Vec::new();
        proof {
            assert(s1.queue() + task_ids@ =~= s1.queue());
        }
        let mut q: usize = 0;
        while q < coro_ids.len()
            invariant
                same_objects(h0, self.heap@),
                self.scheduler.queue() == s1.queue() + task_ids@,
                self.scheduler.next_task() >= s1.next_task(),
                forall|k: TaskId| k < s1.next_task() && #[trigger] s1.tasks().contains_key(k)
                    ==> self.scheduler.tasks().contains_key(k) && self.scheduler.tasks()[k] == s1.tasks()[k],
                items@ == gather_items(old(self).heap@, heap_id),
                is_gather(old(self).heap@, heap_id),
                plan_of(coroutine_keys(items@), coro_ids@, coro_all),
                runs == first_runner_starts(old(self).heap@, old(self).scheduler, heap_id),
                runs0 == (runs && old(self).scheduler.queue().len() == 0),
                runs ==> (s1.tasks() == old(self).scheduler.tasks() && s1.queue() == old(self).scheduler.queue()
                    && s1.current() == old(self).scheduler.current() && s1.next_task() == old(self).scheduler.next_task()),
                forall|j: HeapId| j != heap_id && #[trigger] old(self).heap@.live(j) ==> h0.live(j) && h0.data(j) == old(self).heap@.data(j),
                fi == gathered_coroutines_fresh(old(self).heap@, heap_id),
                fi ==> (task_ids@.len() == q),
                runs0 ==> (task_ids@.len() == q),
                runs0 ==> spawned_fresh(self.scheduler, task_ids@, s1.next_task(), old(self).heap@, heap_id),
                q <= coro_ids@.len(),
                coro_all.len() == coro_ids@.len(),
                coro_slots@ == coro_all.skip(q as int),
                coro_ids@.len() <= items@.len(),
                self.heap.wf(),
                self.scheduler.wf(),
                is_gather(self.heap@, heap_id),
                self.scheduler.current() == s0.current(),
                s0.current() matches Some(t) ==> self.scheduler.tasks().contains_key(t),
                self.scheduler.next_task() + (coro_ids@.len() - q) <= u32::MAX,
                self.scheduler.consumed() == s1.consumed(),
                law ==> coro_ids@.len() == 0 && task_ids@.len() == 0 && self.heap@ == h0,
                host ==> coro_ids@.len() == 0 && task_ids@.len() == 0 && self.heap@ == h0 && self.scheduler == s1,
                ext_only ==> coro_ids@.len() == 0 && self.scheduler == s1,
                forall|c: CallId| #[trigger] self.scheduler.waiters().contains_key(c) ==> s1.waiters().contains_key(c) && self.scheduler.waiters()[c] == s1.waiters()[c],
                self.scheduler.waiters().dom() == s1.waiters().dom(),
                self.heap@.free == h0.free && self.heap@.slots.len() == h0.slots.len(),
                fresh == gather_spawns_fresh(old(self).heap@, old(self).scheduler, heap_id),
                fresh ==> (items@ == gather_items(old(self).heap@, heap_id)),
                fresh ==> (plan_of(coroutine_keys(items@), coro_ids@, coro_all)),
                fresh ==> (task_ids@.len() == q),
                fresh ==> (self.scheduler.queue() == task_ids@),
                fresh ==> (same_objects(h0, self.heap@)),
                fresh ==> (self.scheduler.next_task() >= s1.next_task()),
                fresh ==> (s1.current() == old(self).scheduler.current()),
                fresh ==> (s1.tasks() == old(self).scheduler.tasks()),
                fresh ==> (s1.next_task() == old(self).scheduler.next_task()),
                fresh ==> (is_gather(old(self).heap@, heap_id)),
                fresh ==> (forall|j: HeapId| j != heap_id && #[trigger] old(self).heap@.live(j) ==> h0.live(j) && h0.data(j) == old(self).heap@.data(j)),
                fresh ==> (self.scheduler.tasks().contains_key(s1.current()->0)),
                fresh ==> (self.scheduler.tasks()[s1.current()->0] == s1.tasks()[s1.current()->0]),
                fresh ==> spawned_fresh(self.scheduler, task_ids@, s1.next_task(), old(self).heap@, heap_id),
            decreases coro_ids@.len() - q,
        {
            let cid = coro_ids[q];
            let idxs = coro_slots.remove(0);
            proof {
                assert(coro_slots@ == coro_all.skip(q + 1));
                if fresh || runs0 || fi {
                    assert(idxs == coro_all[q as int]);
                    assert(coro_all[q as int]@.len() > 0);
                    let p = coro_all[q as int]@[0];
                    assert(coroutine_keys(items@)[p as int] == Some(coro_ids@[q as int]));
                    assert(items@[p as int] is Coroutine);
                    assert(fresh_coroutine(old(self).heap@, cid));
                    assert(cid != heap_id);
                    assert(h0.live(cid));
                    assert(self.heap@.live(cid));
                }
            }
            let ghost sq = self.scheduler;
            let ghost hq = self.heap@;
            let ghost tq = task_ids@;
            if self.heap.is_live(cid) {
                let t = self.scheduler.spawn(&mut self.heap, cid, Some(heap_id), idxs);
                task_ids.push(t);
                proof {
                    crate::heap::lemma_same_objects_trans(h0, hq, self.heap@);
                    assert(self.scheduler.queue() =~= s1.queue() + task_ids@);
                    if fresh || runs0 {
                        assert forall|p: int| 0 <= p < task_ids@.len() implies spawned_task(self.scheduler, #[trigger] task_ids@[p], s1.next_task(), old(self).heap@, heap_id) by {
                            if p < tq.len() {
                                assert(task_ids@[p] == tq[p]);
                                assert(spawned_task(sq, tq[p], s1.next_task(), old(self).heap@, heap_id));
                                assert(tq[p] != t);
                            }
                        }
                        assert(s1.current()->0 < s1.next_task());
                        assert(self.scheduler.queue() =~= task_ids@);
                        assert(self.scheduler.tasks()[s1.current()->0] == sq.tasks()[s1.current()->0]);
                    }
                }
            } else {
                proof {
                    assert(!fresh && !runs0 && !fi);
                }
            }
            q = q + 1;
        }
        let ghost s2 = self.scheduler;
        let ghost h2 = self.heap@;
        let mut writes: Vec<(usize, Value)> = Vec::new();
        let ghost rv_all = resolved_vals@;
        let mut rv = resolved_vals;
        while rv.len() > 0
            invariant
                forall|p: int| 0 <= p < rv@.len() ==> #[trigger] rv@[p].0@.len() > 0,
                self.heap.wf(),
                is_gather(self.heap@, heap_id),
                self.scheduler == s2,
                same_objects(h2, self.heap@),
                forall|q: int, i: int| 0 <= q < rv_all.len() && 0 <= i < rv_all[q].0@.len() ==> #[trigger] rv_all[q].0@[i] < items@.len(),
                forall|i: int| 0 <= i < writes@.len() ==> #[trigger] writes@[i].0 < items@.len(),
                rv@.len() <= rv_all.len(),
                rv@ == rv_all.skip(rv_all.len() - rv@.len()),
                host ==> self.heap@.data(heap_id) == h0.data(heap_id),
                self.heap@.free.len() >= h0.free.len() && self.heap@.slots.len() == h0.slots.len(),
                fresh ==> rv_all.len() == 0 && rv@.len() == 0 && writes@.len() == 0 && self.heap@ == h2,
                law ==> {
                    &&& self.heap@.data(heap_id) == h2.data(heap_id)
                    &&& plan_of(external_keys(items@), ext_ids@, ext_all)
                    &&& calls@.len() == ext_ids@.len()
                    &&& forall|m: int| 0 <= m < ext_ids@.len() ==> #[trigger] calls@[m] == ext_ids@[m] as u32
                    &&& rv_all.len() == calls@.len()
                    &&& forall|q: int| 0 <= q < rv_all.len() ==> #[trigger] rv_all[q].0 == ext_all[q]
                        && rv_all[q].1 == s0.resolved()[calls@[q]]
                    &&& forall|i: int| 0 <= i < writes@.len() ==> #[trigger] writes@[i].0 < items@.len()
                        && items@[writes@[i].0 as int] is ExternalFuture
                        && writes@[i].1 == s0.resolved()[items@[writes@[i].0 as int]->ExternalFuture_0]
                    &&& forall|q: int, k: int| 0 <= q < rv_all.len() - rv@.len() && 0 <= k < ext_all[q]@.len()
                        ==> slot_written(writes@, 0, writes@.len() as int, #[trigger] ext_all[q]@[k] as int)
                },
            decreases rv@.len(),
        {
            let ghost rv0 = rv@;
            let ghost w0 = writes@;
            let ghost q0 = rv_all.len() - rv0.len();
            let (idxs, v) = rv.remove(0);
            proof {
                assert(rv0[0].0@.len() > 0);
                assert forall|p: int| 0 <= p < rv@.len() implies #[trigger] rv@[p].0@.len() > 0 by {
                    assert(rv@[p] == rv0[p + 1]);
                }
                assert(rv0[0] == rv_all[q0]);
                assert(rv@ == rv_all.skip(rv_all.len() - rv@.len()));
            }
            let ghost hf = self.heap@;
            self.fan_out(&idxs, v, &mut writes);
            proof {
                crate::heap::lemma_same_objects_trans(h2, hf, self.heap@);
                assert forall|i: int| 0 <= i < writes@.len() implies #[trigger] writes@[i].0 < items@.len() by {
                    if i >= w0.len() {
                        let k = i - w0.len();
                        assert(idxs == rv_all[q0].0);
                        assert(writes@[w0.len() + k] == (idxs@[k], v));
                    } else {
                        assert(writes@[i] == w0[i]);
                    }
                }
                if law {
                    assert forall|i: int| 0 <= i < writes@.len() implies #[trigger] writes@[i].0 < items@.len()
                        && items@[writes@[i].0 as int] is ExternalFuture
                        && writes@[i].1 == s0.resolved()[items@[writes@[i].0 as int]->ExternalFuture_0] by {
                        if i >= w0.len() {
                            let k = i - w0.len();
                            assert(idxs == ext_all[q0]);
                            assert(v == s0.resolved()[calls@[q0]]);
                            assert(writes@[w0.len() + k] == (idxs@[k], v));
                            lemma_plan_slot_call(items@, ext_ids@, ext_all, calls@, q0, k);
                        } else {
                            assert(writes@[i] == w0[i]);
                        }
                    }
                    assert forall|q: int, k: int| 0 <= q < rv_all.len() - rv@.len() && 0 <= k < ext_all[q]@.len()
                        implies slot_written(writes@, 0, writes@.len() as int, #[trigger] ext_all[q]@[k] as int) by {
                        if q == q0 {
                            assert(writes@[w0.len() + k].0 == ext_all[q]@[k]);
                        } else {
                            let i = choose|i: int| 0 <= i < w0.len() && #[trigger] w0[i].0 == ext_all[q]@[k] as int;
                            assert(writes@[i] == w0[i]);
                        }
                    }
                }
            }
        }
        let ghost h2r = self.heap@;
        let all_complete = task_ids.len() == 0 && pending_calls.len() == 0;
        let ghost tids = task_ids@;
        match self.heap.data_mut(heap_id) {
            HeapData::GatherFuture(g) => {
                g.pending_calls = pending_calls;
                g.task_ids = task_ids;
            },
            _ => {},
        }
        let ghost h3 = self.heap@;
        let ghost wsf = writes@;
        let leftover = self.store_gather_writes(heap_id, writes);
        let ghost h4 = self.heap@;
        proof {
            if law {
                let rs0 = h3.data(heap_id)->GatherFuture_0.results@;
                let rs1 = self.heap@.data(heap_id)->GatherFuture_0.results@;
                assert(rs0 == old(self).heap@.data(heap_id)->GatherFuture_0.results@);
                assert(all_complete);
                assert forall|k: int| 0 <= k < rs1.len() implies #[trigger] rs1[k]
                    == Some(s0.resolved()[items@[k]->ExternalFuture_0]) by {
                    assert(external_keys(items@)[k] == Some(items@[k]->ExternalFuture_0 as usize));
                    let q = choose|q: int| 0 <= q < ext_ids@.len() && ext_ids@[q] == external_keys(items@)[k]->0
                        && #[trigger] ext_all[q]@.contains(k as usize);
                    let kk = choose|kk: int| 0 <= kk < ext_all[q]@.len() && ext_all[q]@[kk] == k as usize;
                    assert(slot_written(wsf, 0, wsf.len() as int, ext_all[q]@[kk] as int));
                }
                assert(filled(rs1) == resolved_results(items@, s0.resolved()));
            }
        }
        if all_complete {
            let list = self.take_gather_list(heap_id);
            drop_values(leftover, &mut self.heap);
            let id = list?;
            return Ok(AwaitResult::ValueReady(Value::Ref(id)));
        }
        proof {
            if host {
                let c = choose|c: CallId| external_calls(items@).contains(c) && !old(self).scheduler.resolved().dom().contains(c);
                assert(calls@.to_set().contains(c));
                let q = choose|q: int| 0 <= q < calls@.len() && calls@[q] == c;
                assert(!s0.resolved().contains_key(calls@[q]));
                assert(!all_complete);
                assert forall|c2: CallId| #[trigger] external_calls(items@).contains(c2) && !old(self).scheduler.resolved().contains_key(c2)
                    implies self.scheduler.waiters().contains_key(c2) && self.scheduler.waiters()[c2].0 == heap_id by {
                    assert(calls@.to_set().contains(c2));
                    let q2 = choose|q2: int| 0 <= q2 < calls@.len() && calls@[q2] == c2;
                    assert(!s0.resolved().contains_key(calls@[q2]));
                }
                assert(gather_waiter(self.heap@, heap_id) == old(self).scheduler.current());
            }
        }
        let ghost sb = self.scheduler;
        self.scheduler.block_current_on_gather(heap_id, &mut self.heap);
        let ghost hb = self.heap@;
        let ghost sc = self.scheduler;
        drop_values(leftover, &mut self.heap);
        let ghost hd = self.heap@;
        proof {
            if fresh {
                let t = old(self).scheduler.current()->0;
                let t0 = tids[0];
                assert(spawned_task(s2, t0, s1.next_task(), old(self).heap@, heap_id));
                let c = s2.tasks()[t0].coroutine_id->0;
                assert(fresh_coroutine(old(self).heap@, c));
                assert(old(self).heap@.live(c));
                assert(h0.live(c) && h0.data(c) == old(self).heap@.data(c));
                assert(h2.live(c) && h2.data(c) == h0.data(c));
                assert(h3.live(c) && h3.data(c) == h2.data(c)) by {
                    assert(h3.slots[c as int] == h2.slots[c as int]);
                }
                assert(h4.live(c) && h4.data(c) == h3.data(c));
                assert(same_objects(h4, hb));
                assert(hb.live(c) && hb.data(c) == h4.data(c));
                assert(leftover@.len() == 0);
                assert(hd == hb);
                assert(sb == s2);
                assert(sb.tasks()[t].state is Ready);
                assert(t < s1.next_task());
                assert(sc.tasks()[t0] == s2.tasks()[t0]);
                assert(sc.queue() == tids);
                assert(task_coroutine(hd, sc.tasks()[t0]) == coroutine_at(old(self).heap@, c));
                assert(fresh_coroutine(hd, c));
                assert(sc.tasks()[t].state == TaskState::BlockedOnGather(heap_id));
                assert(is_gather(h0, heap_id) && gather_waiter(h0, heap_id) == Some(t));
                assert(h2.data(heap_id) == h0.data(heap_id));
                assert(is_gather(h3, heap_id) && gather_waiter(h3, heap_id) == Some(t));
                assert(is_gather(h4, heap_id) && gather_waiter(h4, heap_id) == Some(t));
                assert(is_gather(hd, heap_id) && gather_waiter(hd, heap_id) == Some(t));
            }
            if host {
                let t = old(self).scheduler.current()->0;
                assert(sb.current() == Some(t));
                assert(sb.queue().len() == 0);
                assert(sc.tasks()[t].state == TaskState::BlockedOnGather(heap_id));
                assert(sc.pending() == old(self).scheduler.pending());
                assert(gather_waiter(hb, heap_id) == Some(t));
                assert(is_gather(hd, heap_id) ==> gather_waiter(hd, heap_id) == Some(t));
            }
        }
        proof {
            if runs {
                let t = old(self).scheduler.current()->0;
                assert(s1.tasks()[t] == old(self).scheduler.tasks()[t]);
                assert(sb == s2);
                assert(sb.tasks()[t] == s1.tasks()[t]);
                assert(same_objects(h4, hb));
                assert(leftover@.len() == 0) by {
                    assert(is_gather(h2, heap_id) && h2.data(heap_id) == h0.data(heap_id));
                    assert(h2r.data(heap_id) == h2.data(heap_id));
                    assert(h3.data(heap_id)->GatherFuture_0.results == h2r.data(heap_id)->GatherFuture_0.results);
                    assert(h3.data(heap_id)->GatherFuture_0.results@.len() == items@.len());
                    assert forall|i: int| 0 <= i < wsf.len() implies #[trigger] wsf[i].0 < h3.data(heap_id)->GatherFuture_0.results@.len() by {
                        assert(wsf[i].0 < items@.len());
                    }
                }
                assert(hd == hb);
                assert forall|c: HeapId| c != heap_id && #[trigger] old(self).heap@.live(c)
                    implies hd.live(c) && hd.data(c) == old(self).heap@.data(c) by {
                    assert(h0.live(c) && h0.data(c) == old(self).heap@.data(c));
                    assert(h2.live(c) && h2.data(c) == h0.data(c));
                    assert(h2r.live(c) && h2r.data(c) == h2.data(c));
                    assert(h3.live(c) && h3.data(c) == h2r.data(c)) by {
                        assert(h3.slots[c as int] == h2r.slots[c as int]);
                    }
                    assert(h4.live(c) && h4.data(c) == h3.data(c));
                    assert(hb.live(c) && hb.data(c) == h4.data(c));
                }
                let sq = self.scheduler;
                assert(sq.current() == Some(t));
                assert(sq.queue() == s1.queue() + tids);
                if old(self).scheduler.queue().len() > 0 {
                    let q0 = old(self).scheduler.queue()[0];
                    assert(sq.queue()[0] == q0);
                    assert(q0 != t);
                    assert(sq.tasks()[q0] == old(self).scheduler.tasks()[q0]);
                    let tk = old(self).scheduler.tasks()[q0];
                    if tk.frames@.len() == 0 && tk.coroutine_id is Some {
                        let c0 = tk.coroutine_id->0;
                        assert(fresh_coroutine(old(self).heap@, c0));
                        assert(c0 != heap_id);
                        assert(fresh_coroutine(hd, c0));
                    }
                    assert(starts_cleanly(hd, sq, sq.queue()[0]));
                } else if tids.len() > 0 {
                    let t0 = tids[0];
                    assert(sq.queue()[0] == t0);
                    assert(spawned_task(s2, t0, s1.next_task(), old(self).heap@, heap_id));
                    let c = s2.tasks()[t0].coroutine_id->0;
                    assert(t != t0);
                    assert(sq.tasks()[t0] == s2.tasks()[t0]);
                    assert(fresh_coroutine(old(self).heap@, c));
                    assert(fresh_coroutine(hd, c));
                    assert(starts_cleanly(hd, sq, sq.queue()[0]));
                } else {
                    assert(sq.queue().len() == 0);
                }
            }
        }
        let ghost sw = self.scheduler;
        let r = self.switch_or_yield();
        proof {
            if fresh {
                let t = old(self).scheduler.current()->0;
                let t0 = tids[0];
                let c = s2.tasks()[t0].coroutine_id->0;
                assert(sw.queue()[0] == t0);
                assert(sw.tasks()[t0] == s2.tasks()[t0]);
                assert(sw.current() == Some(t));
                assert(t != t0);
                assert(sw.tasks().contains_key(t));
                assert(self.scheduler.tasks()[t].state == sw.tasks()[t].state);
                assert(c != heap_id);
                assert(sw.queue().len() > 0);
                assert(sw.tasks().contains_key(sw.queue()[0]));
                assert(sw.tasks()[sw.queue()[0]].frames@.len() == 0);
                assert(sw.tasks()[sw.queue()[0]].coroutine_id == Some(c));
                assert(fresh_coroutine(hd, c));
                assert(heap_kept_but(hd, self.heap@, c));
                assert(self.heap@.live(heap_id) == hd.live(heap_id));
                assert(self.heap@.live(heap_id) && self.heap@.data(heap_id) == hd.data(heap_id));
            }
        }
        r
    }
}

/// `"object {t} can't be used in 'await' expression"`.
pub open spec fn not_awaitable_message(t: Seq<char>) -> Seq<char> {
    "object "@ + t + " can't be used in 'await' expression"@
}

/// Whether a value can be awaited: a coroutine, a gather, or an external future.
pub open spec fn awaitable(v: Value, heap: HeapView) -> bool {
    match v {
        Value::Ref(id) => coroutine_at(heap, id) is Some || is_gather(heap, id),
        Value::ExternalFuture(_) => true,
        _ => false,
    }
}

/// Drops the values held by result slots.
fn drop_results(rs: Vec<Option<Value>>, heap: &mut Heap)
    requires
        old(heap).wf(),
    ensures
        final(heap).wf(),
        crate::heap::dropped_from(old(heap)@, final(heap)@, filled(rs@), 0),
{
    let ghost orig = rs@;
    let ghost vals = filled(orig);
    proof {
        crate::heap::lemma_dropped_none(old(heap)@, vals);
    }
    let mut rs = rs;
    while rs.len() > 0
        invariant
            heap.wf(),
            vals == filled(orig),
            rs@.len() <= orig.len(),
            rs@ == orig.take(rs@.len() as int),
            crate::heap::dropped_from(old(heap)@, heap@, vals, rs@.len() as int),
        decreases rs@.len(),
    {
        let ghost before = heap@;
        let r = rs.pop().unwrap();
        proof {
            assert(r == orig[rs@.len() as int]);
            assert(rs@ == orig.take(rs@.len() as int));
        }
        if let Some(v) = r {
            v.drop_with_heap(heap);
        }
        proof {
            crate::heap::lemma_dropped_step(old(heap)@, before, heap@, vals, rs@.len() as int);
        }
    }
}

/// Whether finishing the running task `t` completes its gather and hands the waiter
/// the results: `t` is running with result slots that the gather has, the gather
/// completes, no other gathered task has failed, and the waiter is another task,
/// suspended in the middle of its code.
pub open spec fn gather_resumes_waiter(heap: HeapView, s: Scheduler, t: TaskId) -> bool {
    let task = s.tasks()[t];
    let gid = task.gather_id->0;
    let g = heap.data(gid)->GatherFuture_0;
    let w = g.waiter->0;
    &&& task.gather_id is Some
    &&& task.state is Ready
    &&& task.gather_result_indices@.len() > 0
    &&& gather_completes(heap, s, t, gid)
    &&& w != t
    &&& !g.task_ids@.contains(w)
    &&& s.tasks().contains_key(w)
    &&& s.tasks()[w].frames@.len() > 0
    &&& forall|k: int| 0 <= k < task.gather_result_indices@.len() ==> #[trigger] task.gather_result_indices@[k] < g.results@.len()
    &&& forall|k: int| 0 <= k < g.task_ids@.len() && #[trigger] g.task_ids@[k] != t && s.tasks().contains_key(g.task_ids@[k])
        ==> !(s.tasks()[g.task_ids@[k]].state is Failed)
}

/// Writes that all carry `v`, to slots that exist, fill those slots with `v`.
proof fn lemma_uniform_writes(before: Seq<Option<Value>>, writes: Seq<(usize, Value)>, idxs: Seq<usize>, v: Value, after: Seq<Option<Value>>)
    requires
        writes_applied(before, writes, after),
        writes.len() == idxs.len(),
        forall|k: int| 0 <= k < idxs.len() ==> #[trigger] writes[k] == (idxs[k], v),
        forall|k: int| 0 <= k < idxs.len() ==> #[trigger] idxs[k] < before.len(),
        before.len() <= usize::MAX,
    ensures
        after == fill_slots(before, idxs, v),
{
    assert forall|j: int| 0 <= j < before.len() implies after[j] == #[trigger] fill_slots(before, idxs, v)[j] by {
        let ju = j as usize;
        if idxs.contains(ju) {
            let k = choose|k: int| 0 <= k < idxs.len() && idxs[k] == ju;
            assert(writes[k].0 == j);
            assert(slot_written(writes, 0, writes.len() as int, j));
            let i = choose|i: int| 0 <= i < writes.len() && #[trigger] writes[i].0 == j && after[j] == Some(writes[i].1);
            assert(writes[i] == (idxs[i], v));
        } else {
            if slot_written(writes, 0, writes.len() as int, j) {
                let i = choose|i: int| 0 <= i < writes.len() && #[trigger] writes[i].0 == j;
                assert(writes[i] == (idxs[i], v));
                assert(idxs[i] == ju);
            }
        }
    }
    assert(after =~= fill_slots(before, idxs, v));
}

/// Whether finishing task `t` completes the gather `gid`: it is a live gather that
/// some task awaits, with no external call outstanding, and every gathered task
/// other than `t` has finished.
pub open spec fn gather_completes(heap: HeapView, s: Scheduler, t: TaskId, gid: HeapId) -> bool {
    let g = heap.data(gid)->GatherFuture_0;
    &&& is_gather(heap, gid)
    &&& g.waiter is Some
    &&& g.pending_calls@.len() == 0
    &&& forall|i: int| 0 <= i < g.task_ids@.len() && #[trigger] g.task_ids@[i] != t
        ==> !(s.tasks().contains_key(g.task_ids@[i]) && !is_final(s.tasks()[g.task_ids@[i]].state))
}

/// Whether finishing the running task `t` leads on to the next ready task, as for a
/// task outside any gather: `t` is in no gather, or (running, with result slots) it
/// is the gathered task whose end leaves the gather incomplete.
pub open spec fn completion_moves_on(heap: HeapView, s: Scheduler, t: TaskId) -> bool {
    let task = s.tasks()[t];
    ||| task.gather_id is None
    ||| task.state is Ready && task.gather_result_indices@.len() > 0 && !gather_completes(heap, s, t, task.gather_id->0)
}

impl VM {
    /// Finishes the running spawned task with the value its coroutine returned: the
    /// coroutine is marked completed and the task keeps the result. When the task
    /// belongs to a gather, the result fills each of its slots there; if that
    /// completes the gather (no external call outstanding and every gathered task
    /// finished), the gathered tasks are released and the task awaiting the gather
    /// becomes current and is loaded: it gets the error of the first gathered task
    /// that failed, or else the results as a list on its stack. Otherwise the next
    /// ready task runs, or the host is asked to resolve calls.
    pub fn handle_task_completion(&mut self, result: Value) -> (r: Result<AwaitResult, RunError>)
        requires
            old(self).heap.wf(),
            old(self).scheduler.wf(),
            old(self).scheduler.current() matches Some(t) && old(self).scheduler.tasks().contains_key(t),
        ensures
            final(self).heap.wf(),
            final(self).scheduler.wf(),
            final(self).scheduler.tasks().dom().subset_of(old(self).scheduler.tasks().dom()),
            final(self).scheduler.consumed() == old(self).scheduler.consumed(),
            ({
                let t = old(self).scheduler.current()->0;
                completion_moves_on(old(self).heap@, old(self).scheduler, t) ==> {
                    &&& final(self).scheduler.pending() == old(self).scheduler.pending()
                    &&& (old(self).scheduler.queue().len() == 0 ==> {
                        &&& r matches Ok(AwaitResult::Yield(ids)) && ids@.no_duplicates() && ids@.to_set() == old(self).scheduler.pending().dom()
                        &&& final(self).scheduler.tasks().dom() == old(self).scheduler.tasks().dom()
                        &&& final(self).scheduler.tasks()[t].state == TaskState::Completed(result)
                        &&& final(self).scheduler.current() is None
                        &&& final(self).frames@.len() == 0
                        &&& final(self).stack@.len() == 0
                    })
                    &&& (old(self).scheduler.queue().len() > 0 && old(self).scheduler.tasks().contains_key(old(self).scheduler.queue()[0])
                        ==> (r matches Ok(v) ==> v is FramePushed))
                }
            }),
            ({
                let t = old(self).scheduler.current()->0;
                let task = old(self).scheduler.tasks()[t];
                let gid = task.gather_id->0;
                task.gather_id is Some && task.state is Ready && task.gather_result_indices@.len() > 0
                    && gather_completes(old(self).heap@, old(self).scheduler, t, gid) ==> {
                    &&& r matches Ok(v) ==> v is FramePushed
                    &&& forall|i: int| 0 <= i < old(self).heap@.data(gid)->GatherFuture_0.task_ids@.len()
                        ==> !final(self).scheduler.tasks().contains_key(#[trigger] old(self).heap@.data(gid)->GatherFuture_0.task_ids@[i])
                }
            }),
            ({
                let t = old(self).scheduler.current()->0;
                let task = old(self).scheduler.tasks()[t];
                let g = old(self).heap@.data(task.gather_id->0)->GatherFuture_0;
                let w = g.waiter->0;
                gather_resumes_waiter(old(self).heap@, old(self).scheduler, t) ==> {
                    &&& r is Ok || (r matches Err(e) && e.exc_type == ExcType::MemoryError && !crate::heap::has_room(old(self).heap@))
                    &&& r is Ok ==> {
                        &&& final(self).scheduler.current() == Some(w)
                        &&& final(self).scheduler.tasks()[w].state == TaskState::Ready
                        &&& final(self).stack@.len() > 0
                        &&& final(self).stack@.last() is Ref
                        &&& final(self).heap@.live(final(self).stack@.last()->Ref_0)
                        &&& final(self).heap@.data(final(self).stack@.last()->Ref_0) matches HeapData::List(vals)
                            && vals@ == filled(fill_slots(g.results@, task.gather_result_indices@, result))
                    }
                }
            }),
    {
        let task_id = match self.scheduler.current_task_id() {
            Some(t) => t,
            None => vstd::pervasive::unreached(),
        };
        let gather_id = self.scheduler.get_task(task_id).gather_id;
        let coroutine_id = self.scheduler.get_task(task_id).coroutine_id;
        let indices = self.scheduler.take_gather_result_indices(task_id);
        let ghost moves = completion_moves_on(old(self).heap@, old(self).scheduler, task_id);
        let ghost kept = gather_id is Some && old(self).scheduler.tasks()[task_id].state is Ready
            && old(self).scheduler.tasks()[task_id].gather_result_indices@.len() > 0;
        let ghost completes = kept && gather_completes(old(self).heap@, old(self).scheduler, task_id, gather_id->0);
        let ghost resumes = gather_resumes_waiter(old(self).heap@, old(self).scheduler, task_id);
        let ghost g_old = old(self).heap@.data(gather_id->0)->GatherFuture_0;
        let ghost r1 = fill_slots(g_old.results@, indices@, result);
        let ghost h0 = self.heap@;
        if let Some(c) = coroutine_id {
            if self.heap.is_live(c) {
                match self.heap.data_mut(c) {
                    HeapData::Coroutine(co) => {
                        co.state = CoroutineState::Completed;
                    },
                    _ => {},
                }
            }
        }
        proof {
            // Marking the coroutine leaves every gather as it was.
            assert forall|j: HeapId| is_gather(h0, j) implies #[trigger] self.heap@.live(j) && self.heap@.data(j) == h0.data(j) by {
                assert(self.heap@.slots[j as int] == h0.slots[j as int]);
            }
            assert forall|j: HeapId| #[trigger] is_gather(self.heap@, j) implies is_gather(h0, j) by {
                if j < h0.slots.len() {
                    assert(h0.slots[j as int] is Some);
                }
            }
        }
        let ghost h1 = self.heap@;
        let task_result = result.clone_with_heap(&mut self.heap);
        self.scheduler.complete_task(task_id, task_result, &mut self.heap);
        let ghost h2 = self.heap@;
        proof {
            if kept {
                assert(same_objects(h1, h2));
            }
        }
        let ghost dom0 = self.scheduler.tasks().dom();
        proof {
            assert(dom0 =~= old(self).scheduler.tasks().dom());
        }
        match gather_id {
            Some(gid) => {
                let mut writes: Vec<(usize, Value)> = Vec::new();
                self.fan_out(&indices, result, &mut writes);
                let ghost h3 = self.heap@;
                let ghost wsq = writes@;
                proof {
                    assert(wsq.len() == indices@.len());
                    assert forall|k: int| 0 <= k < indices@.len() implies #[trigger] wsq[k] == (indices@[k], result) by {
                        assert(wsq[0 + k] == (indices@[k], result));
                    }
                }
                let leftover = self.store_gather_writes(gid, writes);
                proof {
                    if kept && is_gather(h0, gid) {
                        assert(is_gather(h1, gid) && h1.data(gid) == h0.data(gid));
                        assert(is_gather(h3, gid) && h3.data(gid) == h0.data(gid));
                    }
                    if resumes {
                        assert(h0.data(gid) == old(self).heap@.data(gid));
                        assert(g_old.results.len() == g_old.results@.len());
                        assert(indices@ == old(self).scheduler.tasks()[task_id].gather_result_indices@);
                        lemma_uniform_writes(g_old.results@, wsq, indices@, result, self.heap@.data(gid)->GatherFuture_0.results@);
                        assert(self.heap@.data(gid)->GatherFuture_0.results@ == r1);
                    }
                }
                let info = if self.heap.is_live(gid) {
                    match self.heap.get(gid) {
                        HeapData::GatherFuture(g) => Some((crate::scheduler::clone_ids(&g.task_ids), g.pending_calls.len() == 0, g.waiter)),
                        _ => None,
                    }
                } else {
                    None
                };
                proof {
                    if kept && info is Some {
                        assert(is_gather(self.heap@, gid));
                        assert(is_gather(h3, gid));
                        assert(is_gather(h2, gid));
                        assert(is_gather(h1, gid));
                        assert(is_gather(h0, gid));
                    }
                }
                proof {
                    if completes {
                        let g0 = h0.data(gid)->GatherFuture_0;
                        assert(info is Some);
                        let (tv, ed, w) = info->0;
                        assert(tv@ == g0.task_ids@);
                        assert(ed);
                        assert(w == g0.waiter);
                        assert forall|k: int| 0 <= k < g0.task_ids@.len() implies !(self.scheduler.tasks().contains_key(#[trigger] g0.task_ids@[k])
                            && !is_final(self.scheduler.tasks()[g0.task_ids@[k]].state)) by {
                            if g0.task_ids@[k] != task_id && old(self).scheduler.tasks().contains_key(g0.task_ids@[k]) {
                                assert(self.scheduler.tasks()[g0.task_ids@[k]] == old(self).scheduler.tasks()[g0.task_ids@[k]]);
                            }
                        }
                    }
                }
                if let Some((tids, ext_done, Some(waiter_id))) = info {
                    let mut all_done = ext_done;
                    let mut i: usize = 0;
                    while i < tids.len()
                        invariant
                            i <= tids@.len(),
                            all_done ==> ext_done,
                            completes ==> all_done,
                            completes ==> forall|k: int| 0 <= k < tids@.len() ==> !(self.scheduler.tasks().contains_key(#[trigger] tids@[k])
                                && !is_final(self.scheduler.tasks()[tids@[k]].state)),
                            all_done ==> forall|k: int| 0 <= k < i ==> !(self.scheduler.tasks().contains_key(#[trigger] tids@[k])
                                && !is_final(self.scheduler.tasks()[tids@[k]].state)),
                        decreases tids@.len() - i,
                    {
                        if self.scheduler.has_unfinished_task(tids[i]) {
                            all_done = false;
                        }
                        i = i + 1;
                    }
                    proof {
                        if moves && gather_id is Some {
                            let g0 = h0.data(gid)->GatherFuture_0;
                            assert(is_gather(h0, gid));
                            assert(tids@ == g0.task_ids@);
                            if all_done {
                                assert(gather_completes(h0, old(self).scheduler, task_id, gid)) by {
                                    assert forall|k: int| 0 <= k < g0.task_ids@.len() && #[trigger] g0.task_ids@[k] != task_id
                                        implies !(old(self).scheduler.tasks().contains_key(g0.task_ids@[k])
                                            && !is_final(old(self).scheduler.tasks()[g0.task_ids@[k]].state)) by {
                                        assert(!(self.scheduler.tasks().contains_key(tids@[k]) && !is_final(self.scheduler.tasks()[tids@[k]].state)));
                                    }
                                }
                                assert(false);
                            }
                        }
                    }
                    if all_done {
                        let ghost hr = self.heap@;
                        let mut results: Vec<Option<Value>> = Vec::new();
                        match self.heap.data_mut(gid) {
                            HeapData::GatherFuture(g) => {
                                g.task_ids = Vec::new();
                                core::mem::swap(&mut results, &mut g.results);
                            },
                            _ => {},
                        }
                        let ghost sj = self.scheduler;
                        proof {
                            if resumes {
                                assert(is_gather(hr, gid));
                                assert(results@ == r1);
                                assert(tids@ == g_old.task_ids@);
                                assert forall|q: int| 0 <= q < tids@.len() implies !(sj.tasks().contains_key(#[trigger] tids@[q])
                                    && sj.tasks()[tids@[q]].state is Failed) by {
                                    if tids@[q] != task_id && old(self).scheduler.tasks().contains_key(tids@[q]) {
                                        assert(sj.tasks()[tids@[q]] == old(self).scheduler.tasks()[tids@[q]]);
                                    }
                                }
                            }
                        }
                        proof {
                            assert(crate::heap::room_kept(old(self).heap@, self.heap@));
                        }
                        let mut failed: Option<RunError> = None;
                        let mut j: usize = 0;
                        while j < tids.len()
                            invariant
                                j <= tids@.len(),
                                self.heap.wf(),
                                crate::heap::room_kept(old(self).heap@, self.heap@),
                                self.scheduler.wf(),
                                self.scheduler.tasks().dom() == dom0,
                                self.scheduler.consumed() == old(self).scheduler.consumed(),
                                resumes ==> failed is None && self.scheduler == sj,
                                resumes ==> forall|q: int| 0 <= q < tids@.len() ==> !(sj.tasks().contains_key(#[trigger] tids@[q])
                                    && sj.tasks()[tids@[q]].state is Failed),
                            decreases tids@.len() - j,
                        {
                            if failed.is_none() && self.scheduler.is_task_failed(tids[j]) {
                                let mut st = TaskState::Ready;
                                self.scheduler.swap_state(tids[j], &mut st);
                                proof {
                                    assert(self.scheduler.tasks().dom() =~= dom0);
                                }
                                match st {
                                    TaskState::Failed(e) => {
                                        failed = Some(e);
                                    },
                                    other => other.drop_with_heap(&mut self.heap),
                                }
                            }
                            j = j + 1;
                        }
                        proof {
                            if resumes {
                                assert(self.scheduler.tasks().contains_key(waiter_id));
                                assert(!tids@.contains(waiter_id));
                                assert forall|q: int| 0 <= q < tids@.len() && #[trigger] sj.tasks().contains_key(tids@[q])
                                    implies is_final(sj.tasks()[tids@[q]].state) by {
                                    if tids@[q] != task_id {
                                        assert(sj.tasks()[tids@[q]] == old(self).scheduler.tasks()[tids@[q]]);
                                    }
                                }
                            }
                        }
                        let mut k: usize = 0;
                        while k < tids.len()
                            invariant
                                k <= tids@.len(),
                                forall|q: int| 0 <= q < k ==> !self.scheduler.tasks().contains_key(#[trigger] tids@[q]),
                                self.heap.wf(),
                                crate::heap::room_kept(old(self).heap@, self.heap@),
                                self.scheduler.wf(),
                                self.scheduler.tasks().dom().subset_of(dom0),
                                self.scheduler.consumed() == old(self).scheduler.consumed(),
                                resumes ==> forall|x: TaskId| #[trigger] self.scheduler.tasks().contains_key(x) ==> self.scheduler.tasks()[x] == sj.tasks()[x],
                                resumes ==> failed is None,
                                resumes ==> self.scheduler.tasks().contains_key(waiter_id),
                                resumes ==> waiter_id == g_old.waiter->0 && tids@ == g_old.task_ids@,
                                resumes ==> sj.tasks().dom() == dom0 && !tids@.contains(waiter_id),
                                resumes ==> forall|q: int| 0 <= q < tids@.len() && #[trigger] sj.tasks().contains_key(tids@[q])
                                    ==> is_final(sj.tasks()[tids@[q]].state),
                            decreases tids@.len() - k,
                        {
                            proof {
                                if resumes && self.scheduler.tasks().contains_key(tids@[k as int]) {
                                    assert(sj.tasks().contains_key(tids@[k as int]));
                                    assert(is_final(sj.tasks()[tids@[k as int]].state));
                                    assert(tids@[k as int] != waiter_id);
                                }
                            }
                            self.scheduler.cancel_task(tids[k], &mut self.heap);
                            k = k + 1;
                        }
                        proof {
                            if resumes && self.scheduler.tasks().contains_key(waiter_id) {
                                assert(waiter_id == g_old.waiter->0);
                                assert(sj.tasks()[waiter_id] == old(self).scheduler.tasks()[waiter_id]);
                                assert(self.scheduler.tasks()[waiter_id].frames@.len() > 0);
                            }
                        }
                        if self.scheduler.has_task(waiter_id) {
                            self.scheduler.set_state(waiter_id, TaskState::Ready, &mut self.heap);
                        }
                        self.cleanup_current_task();
                        self.scheduler.set_current_task(Some(waiter_id));
                        drop_values(leftover, &mut self.heap);
                        if self.scheduler.has_task(waiter_id) {
                            match self.load_or_init_task(waiter_id) {
                                Ok(()) => {},
                                Err(e) => {
                                    drop_results(results, &mut self.heap);
                                    return Err(e);
                                },
                            }
                        }
                        match failed {
                            Some(e) => {
                                drop_results(results, &mut self.heap);
                                return Err(e);
                            },
                            None => {
                                let values = unwrap_results(results);
                                let list_id = self.heap.allocate(HeapData::List(values))?;
                                self.stack.push(Value::Ref(list_id));
                                return Ok(AwaitResult::FramePushed);
                            },
                        }
                    }
                }
                drop_values(leftover, &mut self.heap);
            },
            None => {
                result.drop_with_heap(&mut self.heap);
            },
        }
        self.cleanup_current_task();
        self.scheduler.set_current_task(None);
        if let Some(next) = self.scheduler.next_ready_task() {
            if self.scheduler.has_task(next) {
                self.scheduler.set_current_task(Some(next));
                self.load_or_init_task(next)?;
                return Ok(AwaitResult::FramePushed);
            }
        }
        Ok(AwaitResult::Yield(self.scheduler.pending_call_ids()))
    }

    /// The `await` instruction: pops the awaitable from the stack and awaits it as a
    /// coroutine, a gather, or an external future (the popped reference is dropped
    /// afterwards). TypeError for anything else.
    pub fn exec_get_awaitable(&mut self) -> (r: Result<AwaitResult, RunError>)
        requires
            old(self).heap.wf(),
            old(self).scheduler.wf(),
            old(self).stack@.len() > 0,
            old(self).scheduler.current() matches Some(t) ==> old(self).scheduler.tasks().contains_key(t),
            match old(self).stack@.last() {
                Value::Ref(id) => is_gather(old(self).heap@, id) ==> old(self).scheduler.next_task() + gather_items(old(self).heap@, id).len() <= u32::MAX,
                _ => true,
            },
        ensures
            final(self).heap.wf(),
            final(self).scheduler.wf(),
            !awaitable(old(self).stack@.last(), old(self).heap@) ==> {
                &&& r matches Err(e) && is_error(e, ExcType::TypeError, not_awaitable_message(
                    crate::value::type_str_spec(crate::value::py_type_spec(old(self).stack@.last(), old(self).heap@))))
                &&& final(self).stack@ == old(self).stack@.drop_last()
                &&& final(self).scheduler.tasks() == old(self).scheduler.tasks()
                &&& final(self).scheduler.same_calls(&old(self).scheduler)
            },
            match old(self).stack@.last() {
                Value::ExternalFuture(c) => {
                    &&& old(self).scheduler.consumed().contains(c)
                        ==> (r matches Err(e) && is_error(e, ExcType::RuntimeError, reused_future_message()))
                    &&& !old(self).scheduler.consumed().contains(c) && old(self).scheduler.resolved().contains_key(c)
                        ==> r == Ok::<AwaitResult, RunError>(AwaitResult::ValueReady(old(self).scheduler.resolved()[c]))
                },
                Value::Ref(id) => {
                    let co = coroutine_at(old(self).heap@, id)->0;
                    &&& coroutine_at(old(self).heap@, id) is Some && co.state != CoroutineState::New
                        ==> (r matches Err(e) && is_error(e, ExcType::RuntimeError, reused_coroutine_message()))
                    &&& coroutine_at(old(self).heap@, id) is Some && co.state == CoroutineState::New && co.namespace@.len() <= u16::MAX
                        ==> (r matches Ok(AwaitResult::FramePushed)
                            && final(self).frames@ == old(self).frames@.push(coroutine_frame(co, old(self).stack@.len() - 1)))
                    &&& is_gather(old(self).heap@, id) && gather_waiter(old(self).heap@, id) is Some
                        ==> (r matches Err(e) && is_error(e, ExcType::RuntimeError, reused_gather_message()))
                },
                _ => true,
            },
    {
        let awaitable_value = match self.stack.pop() {
            Some(v) => v,
            None => vstd::pervasive::unreached(),
        };
        let r = match &awaitable_value {
            Value::Ref(id) => {
                let kind: u8 = if self.heap.is_live(*id) {
                    match self.heap.get(*id) {
                        HeapData::Coroutine(_) => 1,
                        HeapData::GatherFuture(_) => 2,
                        _ => 0,
                    }
                } else {
                    0
                };
                if kind == 1 {
                    self.await_coroutine(*id)
                } else if kind == 2 {
                    self.await_gather_future(*id)
                } else {
                    Err(self.not_awaitable(&awaitable_value))
                }
            },
            Value::ExternalFuture(c) => self.await_external_future(*c),
            _ => Err(self.not_awaitable(&awaitable_value)),
        };
        awaitable_value.drop_with_heap(&mut self.heap);
        r
    }

    /// TypeError for awaiting a value that cannot be awaited.
    fn not_awaitable(&self, v: &Value) -> (e: RunError)
        ensures
            is_error(e, ExcType::TypeError, not_awaitable_message(crate::value::type_str_spec(crate::value::py_type_spec(*v, self.heap@)))),
    {
        let mut m = crate::text::str_to_string("object ");
        crate::text::push_str(&mut m, crate::value::type_str(crate::value::py_type(v, &self.heap)));
        crate::text::push_str(&mut m, " can't be used in 'await' expression");
        RunError { exc_type: ExcType::TypeError, message: m }
    }
}

/// Switching away from a task and back restores it: saving the loaded context into
/// task `t` ([`VM::save_task_context`], from `v0` to `v1`) and then loading `t`
/// ([`VM::load_or_init_task`], from `v1` to `v2`) gives back the same frames,
/// exception stack and instruction pointer, the same operand stack with the result
/// of the call that woke the task (if any) on top, and the same recursion depth.
pub proof fn law_save_then_load_restores(v0: VM, v1: VM, v2: VM, t: TaskId)
    requires
        v0.scheduler.tasks().contains_key(t),
        v0.frames@.len() > 0,
        v1.scheduler.tasks() == v0.scheduler.tasks().insert(t, (Task {
            frames: v0.frames,
            stack: v0.stack,
            exception_stack: v0.exception_stack,
            instruction_ip: v0.instruction_ip,
            ..v0.scheduler.tasks()[t]
        })),
        v1.recursion_depth == sat_sub(v0.recursion_depth, nested_depth(v0.frames@.len())),
        v2.frames == v1.scheduler.tasks()[t].frames,
        v2.exception_stack == v1.scheduler.tasks()[t].exception_stack,
        v2.instruction_ip == v1.scheduler.tasks()[t].instruction_ip,
        v2.stack@ == v1.scheduler.tasks()[t].stack@ + resumed_value(v1.scheduler.resolved(), v1.scheduler.tasks()[t]),
        v2.recursion_depth == sat_add(v1.recursion_depth, nested_depth(v1.scheduler.tasks()[t].frames@.len())),
        v0.recursion_depth >= nested_depth(v0.frames@.len()),
    ensures
        v2.frames == v0.frames,
        v2.exception_stack == v0.exception_stack,
        v2.instruction_ip == v0.instruction_ip,
        v2.stack@ == v0.stack@ + resumed_value(v1.scheduler.resolved(), v0.scheduler.tasks()[t]),
        v2.recursion_depth == v0.recursion_depth,
{
    let tk = v1.scheduler.tasks()[t];
    assert(tk.frames == v0.frames);
    assert(tk.unblocked_by == v0.scheduler.tasks()[t].unblocked_by);
}

/// An external future is awaited at most once: once an await of call `c` has
/// succeeded ([`VM::await_external_future`] from `v0`, where `c` was not yet
/// awaited, to `v1`), awaiting `c` again from `v1` fails with RuntimeError.
pub proof fn law_future_awaited_once(v0: VM, v1: VM, c: CallId, second: Result<AwaitResult, RunError>)
    requires
        !v0.scheduler.consumed().contains(c),
        v1.scheduler.consumed() == v0.scheduler.consumed().insert(c),
        v1.scheduler.consumed().contains(c) ==> (second matches Err(e) && is_error(e, ExcType::RuntimeError, reused_future_message())),
    ensures
        second matches Err(e) && is_error(e, ExcType::RuntimeError, reused_future_message()),
{
}

} // verus!
