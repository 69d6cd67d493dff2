//! The part of the virtual machine that deals with external futures: the host
//! resolves or fails external calls, and the VM decides which task runs next.
//!
//! Running bytecode is the interpreter's job; [`VM::resume_with_resolved_futures`]
//! returns what to do next (run the current task, switch to a ready task, or hand
//! the host the calls still pending) instead of running it.
use vstd::prelude::*;
use crate::exception::{ExcType, RunError, is_error};
use crate::heap::{Heap, HeapData, HeapView};
use crate::scheduler::{CallId, PendingCallData, Scheduler, TaskFrame, TaskId, TaskState, gather_call_failed, holds_no_args, unblocked_task, with_state};
use crate::async_exec::{is_gather, resumed_value};
use crate::async_state::GatherFuture;
use crate::text::{push_str, str_to_string};
use crate::value::{ArgValues, HeapId, Value, drop_values};
use crate::date::OsFunction;

verus! {

/// The VM state that async execution touches: the heap, the scheduler, and the
/// execution context of the task that is loaded (its call frames, operand stack,
/// exception stack and instruction pointer), with the global recursion depth.
pub struct VM {
    pub heap: Heap,
    pub scheduler: Scheduler,
    pub frames: Vec<TaskFrame>,
    pub stack: Vec<Value>,
    pub exception_stack: Vec<Value>,
    pub instruction_ip: usize,
    pub recursion_depth: usize,
}

/// What the host reports for an external call.
#[derive(Debug)]
pub enum ExtFunctionResult {
    /// The call returned a value.
    Return(Value),
    /// The call raised an exception.
    Error(RunError),
    /// The call is still running (it gets resolved later).
    Future(CallId),
    /// No external function has the name the code called.
    NotFound(String),
}

/// What the VM does after futures were resolved.
#[derive(Debug)]
pub enum ResumeStep {
    /// Run the current task (its result, if any, is on the stack).
    Run,
    /// Nothing can run: hand the host the calls still pending.
    ResolveFutures(Vec<CallId>),
}

/// How a run of the interpreter stopped.
#[derive(Debug)]
pub enum FrameExit {
    /// The module or function returned a value.
    Return(Value),
    /// The code called an external function by name.
    ExternalCall { function_name: String, args: ArgValues },
    /// The code called an operating-system function that the host answers.
    OsCall { function: OsFunction, args: ArgValues },
    /// The code called a method of an object that the host owns.
    MethodCall { method_name: String, args: ArgValues },
    /// Every task waits on an external call: these calls are pending.
    ResolveFutures(Vec<CallId>),
    /// The code read a name that nothing defines; the host may supply it, cached in
    /// the given slot (a global slot, or a slot of the innermost frame).
    NameLookup { name: String, namespace_slot: u16, is_global: bool },
}

/// `"name '{name}' is not defined"`.
pub open spec fn not_defined_message(name: Seq<char>) -> Seq<char> {
    "name '"@ + name + "' is not defined"@
}

/// NameError for an external function the host does not have.
pub fn not_found_exc(name: &str) -> (r: RunError)
    ensures
        is_error(r, ExcType::NameError, not_defined_message(name@)),
{
    let mut m = str_to_string("name '");
    push_str(&mut m, name);
    push_str(&mut m, "' is not defined");
    RunError { exc_type: ExcType::NameError, message: m }
}

/// The stack base of the innermost call frame, 0 when no frame runs: the slots of
/// a frame's locals are counted from there.
pub open spec fn frame_base(frames: Seq<TaskFrame>) -> int {
    if frames.len() == 0 {
        0
    } else {
        frames.last().stack_base as int
    }
}

/// The gather stored at `id`.
pub open spec fn gather_of(heap: HeapView, id: HeapId) -> GatherFuture {
    heap.data(id)->GatherFuture_0
}

/// Two heaps hold the same objects, except that the gather at `id` may have other
/// results.
pub open spec fn same_gather_but_results(a: HeapView, b: HeapView, id: HeapId) -> bool {
    &&& forall|j: HeapId| #[trigger] b.live(j) == a.live(j)
    &&& forall|j: HeapId| #[trigger] a.live(j) && j != id ==> b.data(j) == a.data(j)
    &&& gather_of(b, id).items == gather_of(a, id).items
    &&& gather_of(b, id).pending_calls == gather_of(a, id).pending_calls
    &&& gather_of(b, id).task_ids == gather_of(a, id).task_ids
    &&& gather_of(b, id).waiter == gather_of(a, id).waiter
}

/// Result slots with the slots at `idxs` filled with `v`.
pub open spec fn fill_slots(rs: Seq<Option<Value>>, idxs: Seq<usize>, v: Value) -> Seq<Option<Value>> {
    Seq::new(rs.len(), |k: int| if idxs.contains(k as usize) { Some(v) } else { rs[k] })
}

/// Whether delivering call `call_id`'s value to slots `idxs` of gather `id` leaves
/// the gather still waiting: it is a gather, the slots exist (there is at least one),
/// and some other external call of the gather is outstanding.
pub open spec fn fills_pending_gather(heap: HeapView, call_id: CallId, id: HeapId, idxs: Seq<usize>) -> bool {
    &&& is_gather(heap, id)
    &&& idxs.len() > 0
    &&& forall|i: int| 0 <= i < idxs.len() ==> #[trigger] idxs[i] < gather_of(heap, id).results@.len()
    &&& other_calls(gather_of(heap, id).pending_calls@, call_id).len() > 0
}

/// Gathered results land in gather order whatever order the awaitables finish in:
/// filling the slots of two different awaitables gives the same slots either way,
/// and each slot holds the value of the awaitable at that position.
pub proof fn law_fill_order_irrelevant(rs: Seq<Option<Value>>, ia: Seq<usize>, a: Value, ib: Seq<usize>, b: Value)
    requires
        forall|i: int, j: int| 0 <= i < ia.len() && 0 <= j < ib.len() ==> #[trigger] ia[i] != #[trigger] ib[j],
    ensures
        fill_slots(fill_slots(rs, ia, a), ib, b) == fill_slots(fill_slots(rs, ib, b), ia, a),
        forall|k: int| 0 <= k < rs.len() && ia.contains(k as usize) ==> #[trigger] fill_slots(fill_slots(rs, ia, a), ib, b)[k] == Some(a),
        forall|k: int| 0 <= k < rs.len() && ib.contains(k as usize) ==> #[trigger] fill_slots(fill_slots(rs, ia, a), ib, b)[k] == Some(b),
{
    let x = fill_slots(fill_slots(rs, ia, a), ib, b);
    let y = fill_slots(fill_slots(rs, ib, b), ia, a);
    assert forall|k: int| 0 <= k < rs.len() implies #[trigger] x[k] == y[k] by {
        if ia.contains(k as usize) && ib.contains(k as usize) {
            let i = choose|i: int| 0 <= i < ia.len() && ia[i] == k as usize;
            let j = choose|j: int| 0 <= j < ib.len() && ib[j] == k as usize;
            assert(ia[i] != ib[j]);
        }
    }
    assert(x =~= y);
    assert forall|k: int| 0 <= k < rs.len() && ia.contains(k as usize) implies #[trigger] x[k] == Some(a) by {
        if ib.contains(k as usize) {
            let i = choose|i: int| 0 <= i < ia.len() && ia[i] == k as usize;
            let j = choose|j: int| 0 <= j < ib.len() && ib[j] == k as usize;
            assert(ia[i] != ib[j]);
        }
    }
}

/// Whether delivering the value of `call_id` to the positions `idxs` completes gather
/// `id`: a live gather with a slot at each position, whose last outstanding external
/// call this is, whose gathered tasks have all finished, and whose awaiting task
/// exists and is not itself one of the gathered tasks.
pub open spec fn completes_gather(heap: HeapView, s: Scheduler, call_id: CallId, id: HeapId, idxs: Seq<usize>) -> bool {
    let g = gather_of(heap, id);
    &&& is_gather(heap, id)
    &&& idxs.len() > 0
    &&& forall|i: int| 0 <= i < idxs.len() ==> #[trigger] idxs[i] < g.results@.len()
    &&& other_calls(g.pending_calls@, call_id).len() == 0
    &&& forall|i: int| 0 <= i < g.task_ids@.len() ==> !(s.tasks().contains_key(#[trigger] g.task_ids@[i])
        && !crate::scheduler::is_final(s.tasks()[g.task_ids@[i]].state))
    &&& g.waiter matches Some(w) && s.tasks().contains_key(w) && !g.task_ids@.contains(w)
}

/// The gather's results handed to its waiter `w` as the list `vals`: the waiter has
/// become ready; when it is the task running in the VM the list is on the VM's
/// stack, otherwise on the waiter's saved stack, and the waiter is queued.
pub open spec fn list_handed_to(s0: VM, s1: VM, w: TaskId, vals: Seq<Value>) -> bool {
    let on_vm = s0.scheduler.current() == Some(w) && s0.frames@.len() > 0;
    let st = if on_vm { s1.stack@ } else { s1.scheduler.tasks()[w].stack@ };
    &&& s1.scheduler.tasks().contains_key(w)
    &&& s1.scheduler.tasks()[w].state == TaskState::Ready
    &&& st.len() > 0
    &&& st.last() is Ref
    &&& s1.heap@.live(st.last()->Ref_0)
    &&& s1.heap@.data(st.last()->Ref_0) matches HeapData::List(l) && l@ == vals
    &&& !on_vm ==> s1.scheduler.queue() == s0.scheduler.queue().push(w)
}

/// The calls of a list other than `call_id`, in order.
pub open spec fn other_calls(calls: Seq<CallId>, call_id: CallId) -> Seq<CallId>
    decreases calls.len(),
{
    if calls.len() == 0 {
        Seq::empty()
    } else {
        let rest = other_calls(calls.drop_last(), call_id);
        if calls.last() != call_id { rest.push(calls.last()) } else { rest }
    }
}

/// Filling one more slot extends the fill by that slot.
proof fn lemma_fill_slots_step(rs: Seq<Option<Value>>, idxs: Seq<usize>, k: int, v: Value)
    requires
        0 <= k < idxs.len(),
        idxs[k] < rs.len(),
        rs.len() <= usize::MAX,
    ensures
        fill_slots(rs, idxs.take(k + 1), v) == fill_slots(rs, idxs.take(k), v).update(idxs[k] as int, Some(v)),
{
    let a = fill_slots(rs, idxs.take(k + 1), v);
    let b = fill_slots(rs, idxs.take(k), v).update(idxs[k] as int, Some(v));
    assert forall|j: int| 0 <= j < rs.len() implies a[j] == b[j] by {
        let ju = j as usize;
        assert(ju as int == j);
        if j == idxs[k] as int {
            assert(idxs.take(k + 1)[k] == idxs[k]);
        } else {
            if idxs.take(k + 1).contains(ju) {
                let i = choose|i: int| 0 <= i < k + 1 && #[trigger] idxs.take(k + 1)[i] == ju;
                assert(idxs.take(k + 1)[i] == idxs[i]);
                assert(i != k);
                assert(idxs.take(k)[i] == idxs[i]);
            }
            if idxs.take(k).contains(ju) {
                let i = choose|i: int| 0 <= i < k && #[trigger] idxs.take(k)[i] == ju;
                assert(idxs.take(k)[i] == idxs[i]);
                assert(idxs.take(k + 1)[i] == idxs[i]);
            }
        }
    }
    assert(a =~= b);
}

/// What failing external call `call_id` with `error` does, from VM `s0` to `s1` (see
/// [`Scheduler::fail_for_call`]).
pub open spec fn fail_outcome(s0: VM, s1: VM, call_id: CallId, error: RunError) -> bool {
    &&& (s1.stack == s0.stack)
    &&& gather_call_failed(s0.scheduler, s0.heap@, s1.scheduler, call_id, error)
    &&& (!s0.scheduler.pending().contains_key(call_id) ==> {
        &&& s1.scheduler.tasks() == s0.scheduler.tasks()
        &&& s1.scheduler.queue() == s0.scheduler.queue()
        &&& s1.scheduler.same_calls(&s0.scheduler)
    })
    &&& (s0.scheduler.pending().contains_key(call_id) && !s0.scheduler.waiters().contains_key(call_id) ==> {
        let tid = s0.scheduler.pending()[call_id].creator_task;
        &&& s1.scheduler.pending() == s0.scheduler.pending().remove(call_id)
        &&& s1.scheduler.resolved() == s0.scheduler.resolved()
        &&& s1.scheduler.tasks() == if s0.scheduler.tasks().contains_key(tid) {
            s0.scheduler.tasks().insert(tid, with_state(s0.scheduler.tasks()[tid], TaskState::Failed(error)))
        } else {
            s0.scheduler.tasks()
        }
    })
    &&& (s0.scheduler.pending().contains_key(call_id) && s0.scheduler.waiters().contains_key(call_id) ==> {
        &&& !s1.scheduler.pending().contains_key(call_id)
        &&& !s1.scheduler.waiters().contains_key(call_id)
    })
}

/// What resolving external call `call_id` with `value` does, from VM `s0` to `s1`
/// with result `r` (see [`VM::resolve_future`]).
pub open spec fn resolve_outcome(s0: VM, s1: VM, call_id: CallId, value: Value, r: Result<(), RunError>) -> bool {
    &&& (creator_failed(&s0.scheduler, call_id) ==> {
        &&& r is Ok
        &&& s1.scheduler.tasks() == s0.scheduler.tasks()
        &&& s1.scheduler.queue() == s0.scheduler.queue()
        &&& s1.scheduler.same_calls(&s0.scheduler)
        &&& s1.stack == s0.stack
    })
    &&& (!creator_failed(&s0.scheduler, call_id) && !s0.scheduler.waiters().contains_key(call_id) ==> {
        let s = s0.scheduler;
        let tid = s.pending()[call_id].creator_task;
        &&& r is Ok
        &&& s1.scheduler.resolved() == s.resolved().insert(call_id, value)
        &&& s1.scheduler.pending() == s.pending().remove(call_id)
        &&& s1.scheduler.waiters() == s.waiters()
        &&& s1.scheduler.current() == s.current()
        &&& s1.stack == s0.stack
        &&& if s.pending().contains_key(call_id) && s.tasks().contains_key(tid)
            && s.tasks()[tid].state == TaskState::BlockedOnCall(call_id) {
            &&& s1.scheduler.tasks() == s.tasks().insert(tid, unblocked_task(s.tasks()[tid], call_id))
            &&& s1.scheduler.queue() == s.queue().push(tid)
        } else {
            &&& s1.scheduler.tasks() == s.tasks()
            &&& s1.scheduler.queue() == s.queue()
        }
    })
    &&& (!creator_failed(&s0.scheduler, call_id) && s0.scheduler.waiters().contains_key(call_id) ==> {
        &&& !s1.scheduler.pending().contains_key(call_id)
        &&& s1.scheduler.waiters() == s0.scheduler.waiters().remove(call_id)
        &&& s1.scheduler.resolved() == s0.scheduler.resolved()
        &&& (r matches Err(e) ==> e.exc_type == ExcType::MemoryError && !crate::heap::has_room(s0.heap@))
    })
    &&& (({
        let (gid, idxs) = s0.scheduler.waiters()[call_id];
        !creator_failed(&s0.scheduler, call_id) && s0.scheduler.waiters().contains_key(call_id)
            && holds_no_args(&s0.scheduler, call_id) && fills_pending_gather(s0.heap@, call_id, gid, idxs@) ==> {
            &&& r is Ok
            &&& gather_of(s1.heap@, gid).results@ == fill_slots(gather_of(s0.heap@, gid).results@, idxs@, value)
            &&& s1.scheduler.tasks() == s0.scheduler.tasks()
            &&& s1.scheduler.queue() == s0.scheduler.queue()
            &&& s1.stack == s0.stack
        }
    }))
    &&& (({
        let (gid, idxs) = s0.scheduler.waiters()[call_id];
        let g = gather_of(s0.heap@, gid);
        !creator_failed(&s0.scheduler, call_id) && s0.scheduler.waiters().contains_key(call_id)
            && holds_no_args(&s0.scheduler, call_id) && completes_gather(s0.heap@, s0.scheduler, call_id, gid, idxs@) && r is Ok ==> {
            &&& forall|i: int| 0 <= i < g.task_ids@.len() ==> !s1.scheduler.tasks().contains_key(#[trigger] g.task_ids@[i])
            &&& list_handed_to(s0, s1, g.waiter->0, crate::async_exec::filled(fill_slots(g.results@, idxs@, value)))
        }
    }))
    &&& (({
        let (gid, idxs) = s0.scheduler.waiters()[call_id];
        !creator_failed(&s0.scheduler, call_id) && s0.scheduler.waiters().contains_key(call_id)
            && holds_no_args(&s0.scheduler, call_id) && is_gather(s0.heap@, gid) && idxs@.len() > 0
            && (forall|i: int| 0 <= i < idxs@.len() ==> #[trigger] idxs@[i] < gather_of(s0.heap@, gid).results@.len())
            && is_gather(s1.heap@, gid)
            ==> gather_of(s1.heap@, gid).pending_calls@ == other_calls(gather_of(s0.heap@, gid).pending_calls@, call_id)
    }))
}

/// Whether the call's creator task exists and has failed (its results are ignored).
pub open spec fn creator_failed(s: &Scheduler, call_id: CallId) -> bool {
    s.pending().contains_key(call_id) && s.tasks().contains_key(s.pending()[call_id].creator_task)
        && s.tasks()[s.pending()[call_id].creator_task].state is Failed
}

impl VM {
    /// A VM with an empty heap and stack, whose scheduler holds just the main task.
    pub fn new() -> (r: VM)
        ensures
            r.heap.wf(),
            r.scheduler.wf(),
            r.stack@.len() == 0,
            r.frames@.len() == 0,
            r.exception_stack@.len() == 0,
            r.instruction_ip == 0,
            r.recursion_depth == 0,
    {
        VM {
            heap: Heap::new(0),
            scheduler: Scheduler::new(),
            frames: Vec::new(),
            stack: Vec::new(),
            exception_stack: Vec::new(),
            instruction_ip: 0,
            recursion_depth: 0,
        }
    }

    /// The stack base of the innermost call frame, 0 when no frame runs.
    pub fn current_stack_base(&self) -> (r: usize)
        ensures
            r == frame_base(self.frames@),
    {
        let n = self.frames.len();
        if n == 0 {
            0
        } else {
            self.frames[n - 1].stack_base
        }
    }

    /// Records an external call made by the current task (task 0 when none runs),
    /// with no arguments kept.
    pub fn add_pending_call(&mut self, call_id: CallId)
        ensures
            final(self).scheduler.pending() == old(self).scheduler.pending().insert(call_id, PendingCallData {
                args: final(self).scheduler.pending()[call_id].args,
                creator_task: match old(self).scheduler.current() { Some(t) => t, None => 0 },
            }),
            final(self).scheduler.pending()[call_id].args.positional@.len() == 0,
            final(self).scheduler.pending()[call_id].args.kwargs@.len() == 0,
            final(self).scheduler.tasks() == old(self).scheduler.tasks(),
            final(self).scheduler.queue() == old(self).scheduler.queue(),
            final(self).scheduler.resolved() == old(self).scheduler.resolved(),
            final(self).scheduler.waiters() == old(self).scheduler.waiters(),
            final(self).heap == old(self).heap,
            final(self).stack == old(self).stack,
            old(self).scheduler.wf() ==> final(self).scheduler.wf(),
    {
        let current = match self.scheduler.current_task_id() {
            Some(t) => t,
            None => 0,
        };
        let args = ArgValues { positional: Vec::new(), kwargs: Vec::new() };
        self.scheduler.add_pending_call(call_id, PendingCallData { args, creator_task: current });
    }

    /// The ids of the calls still pending, each once, in no particular order.
    pub fn get_pending_call_ids(&self) -> (r: Vec<CallId>)
        ensures
            r@.no_duplicates(),
            r@.to_set() == self.scheduler.pending().dom(),
    {
        self.scheduler.pending_call_ids()
    }

    /// Fails an external call with the host's error (see [`Scheduler::fail_for_call`]).
    pub fn fail_future(&mut self, call_id: CallId, error: RunError)
        requires
            old(self).heap.wf(),
            old(self).scheduler.wf(),
        ensures
            final(self).heap.wf(),
            final(self).scheduler.wf(),
            fail_outcome(*old(self), *final(self), call_id, error),

    {
        self.scheduler.fail_for_call(call_id, error, &mut self.heap);
    }
}

impl VM {
    /// Stores `v` in slot `idx` of the results of the gather at `gather_id`; the value
    /// is dropped when there is no such gather or slot.
    fn store_result(&mut self, gather_id: usize, idx: usize, v: Value)
        requires
            old(self).heap.wf(),
        ensures
            final(self).heap.wf(),
            final(self).heap@.slots.len() == old(self).heap@.slots.len(),
            crate::heap::room_kept(old(self).heap@, final(self).heap@),
            final(self).scheduler == old(self).scheduler,
            final(self).stack == old(self).stack,
            final(self).frames == old(self).frames,
            is_gather(old(self).heap@, gather_id) && idx < gather_of(old(self).heap@, gather_id).results@.len() ==> {
                &&& is_gather(final(self).heap@, gather_id)
                &&& gather_of(final(self).heap@, gather_id).results@ == gather_of(old(self).heap@, gather_id).results@.update(idx as int, Some(v))
                &&& same_gather_but_results(old(self).heap@, final(self).heap@, gather_id)
            },
    {
        if !self.heap.is_live(gather_id) {
            v.drop_with_heap(&mut self.heap);
            return;
        }
        let fits = match self.heap.get(gather_id) {
            HeapData::GatherFuture(g) => idx < g.results.len(),
            _ => false,
        };
        if !fits {
            v.drop_with_heap(&mut self.heap);
            return;
        }
        match self.heap.data_mut(gather_id) {
            HeapData::GatherFuture(g) => {
                g.results.set(idx, Some(v));
            },
            _ => {},
        }
    }

    /// Removes a call from the gather's pending calls; whether none remain.
    fn remove_gather_call(&mut self, gather_id: usize, call_id: CallId) -> (r: bool)
        requires
            old(self).heap.wf(),
        ensures
            final(self).heap.wf(),
            final(self).heap@.slots.len() == old(self).heap@.slots.len(),
            crate::heap::room_kept(old(self).heap@, final(self).heap@),
            final(self).scheduler == old(self).scheduler,
            final(self).stack == old(self).stack,
            final(self).frames == old(self).frames,
            is_gather(old(self).heap@, gather_id) ==> {
                &&& is_gather(final(self).heap@, gather_id)
                &&& gather_of(final(self).heap@, gather_id).pending_calls@
                    == other_calls(gather_of(old(self).heap@, gather_id).pending_calls@, call_id)
                &&& gather_of(final(self).heap@, gather_id).results == gather_of(old(self).heap@, gather_id).results
                &&& gather_of(final(self).heap@, gather_id).task_ids == gather_of(old(self).heap@, gather_id).task_ids
                &&& gather_of(final(self).heap@, gather_id).waiter == gather_of(old(self).heap@, gather_id).waiter
                &&& gather_of(final(self).heap@, gather_id).items == gather_of(old(self).heap@, gather_id).items
                &&& r == (gather_of(final(self).heap@, gather_id).pending_calls@.len() == 0)
                &&& forall|j: HeapId| #[trigger] final(self).heap@.live(j) == old(self).heap@.live(j)
                &&& forall|j: HeapId| #[trigger] old(self).heap@.live(j) && j != gather_id ==> final(self).heap@.data(j) == old(self).heap@.data(j)
            },
    {
        if !self.heap.is_live(gather_id) {
            return false;
        }
        let ghost h0 = self.heap@;
        let r = match self.heap.data_mut(gather_id) {
            HeapData::GatherFuture(g) => {
                let ghost calls = g.pending_calls@;
                let mut kept: Vec<CallId> = Vec::new();
                let mut i: usize = 0;
                while i < g.pending_calls.len()
                    invariant
                        i <= g.pending_calls@.len(),
                        g.pending_calls@ == calls,
                        kept@ == other_calls(calls.take(i as int), call_id),
                    decreases g.pending_calls@.len() - i,
                {
                    proof {
                        assert(calls.take(i + 1).drop_last() == calls.take(i as int));
                    }
                    if g.pending_calls[i] != call_id {
                        kept.push(g.pending_calls[i]);
                    }
                    i = i + 1;
                }
                proof {
                    assert(calls.take(calls.len() as int) == calls);
                }
                let empty = kept.len() == 0;
                g.pending_calls = kept;
                empty
            },
            _ => false,
        };
        proof {
            assert forall|j: HeapId| #[trigger] self.heap@.live(j) == h0.live(j) by {
                if j != gather_id && (j as int) < h0.slots.len() {
                    assert(self.heap@.slots[j as int] == h0.slots[j as int]);
                }
            }
            assert forall|j: HeapId| #[trigger] h0.live(j) && j != gather_id implies self.heap@.data(j) == h0.data(j) by {
                assert(self.heap@.slots[j as int] == h0.slots[j as int]);
            }
        }
        r
    }

    /// Delivers a resolved call's value to the gather waiting on it: the value goes to
    /// each of the gather's slots for the call. When that completes the gather (no
    /// external call left and every gathered task finished), the gathered tasks are
    /// released, the results become a list, and the task awaiting the gather gets the
    /// list and becomes ready. MemoryError when the list cannot be stored.
    #[verifier::rlimit(40)]
    fn deliver_to_gather(&mut self, call_id: CallId, gather_id: usize, indices: Vec<usize>, value: Value) -> (r: Result<(), RunError>)
        requires
            old(self).heap.wf(),
            old(self).scheduler.wf(),
        ensures
            final(self).heap.wf(),
            final(self).scheduler.wf(),
            final(self).scheduler.pending() == old(self).scheduler.pending(),
            final(self).scheduler.waiters() == old(self).scheduler.waiters(),
            final(self).scheduler.resolved() == old(self).scheduler.resolved(),
            r matches Err(e) ==> e.exc_type == ExcType::MemoryError && !crate::heap::has_room(old(self).heap@),
            is_gather(old(self).heap@, gather_id) && indices@.len() > 0
                && (forall|i: int| 0 <= i < indices@.len() ==> #[trigger] indices@[i] < gather_of(old(self).heap@, gather_id).results@.len())
                && is_gather(final(self).heap@, gather_id)
                ==> gather_of(final(self).heap@, gather_id).pending_calls@ == other_calls(gather_of(old(self).heap@, gather_id).pending_calls@, call_id),
            fills_pending_gather(old(self).heap@, call_id, gather_id, indices@) ==> {
                &&& r is Ok
                &&& is_gather(final(self).heap@, gather_id)
                &&& gather_of(final(self).heap@, gather_id).results@ == fill_slots(gather_of(old(self).heap@, gather_id).results@, indices@, value)
                &&& final(self).scheduler == old(self).scheduler
                &&& final(self).stack == old(self).stack
            },
            ({
                let g = gather_of(old(self).heap@, gather_id);
                completes_gather(old(self).heap@, old(self).scheduler, call_id, gather_id, indices@) && r is Ok ==> {
                    &&& forall|i: int| 0 <= i < g.task_ids@.len() ==> !final(self).scheduler.tasks().contains_key(#[trigger] g.task_ids@[i])
                    &&& list_handed_to(*old(self), *final(self), g.waiter->0,
                        crate::async_exec::filled(fill_slots(g.results@, indices@, value)))
                }
            }),
    {
        let ghost cond = fills_pending_gather(old(self).heap@, call_id, gather_id, indices@);
        let ghost comp = completes_gather(old(self).heap@, old(self).scheduler, call_id, gather_id, indices@);
        let ghost fillable = is_gather(old(self).heap@, gather_id) && indices@.len() > 0
            && forall|i: int| 0 <= i < indices@.len() ==> #[trigger] indices@[i] < gather_of(old(self).heap@, gather_id).results@.len();
        let ghost h0 = self.heap@;
        let ghost r0 = gather_of(h0, gather_id).results@;
        proof {
            assert(gather_of(h0, gather_id).results.len() == r0.len());
        }
        let n = indices.len();
        if n == 0 {
            value.drop_with_heap(&mut self.heap);
        } else {
            let mut k: usize = 0;
            while k + 1 < n
                invariant
                    self.heap.wf(),
                    self.scheduler == old(self).scheduler,
                    self.stack == old(self).stack,
                    self.frames == old(self).frames,
                    n == indices@.len(),
                    k < n,
                    h0 == old(self).heap@,
                    r0 == gather_of(h0, gather_id).results@,
                    r0.len() <= usize::MAX,
                    cond == fills_pending_gather(h0, call_id, gather_id, indices@),
                    cond ==> fillable,
                    fillable ==> is_gather(h0, gather_id) && forall|i: int| 0 <= i < indices@.len() ==> #[trigger] indices@[i] < r0.len(),
                    crate::heap::room_kept(h0, self.heap@),
                    fillable ==> {
                        &&& is_gather(self.heap@, gather_id)
                        &&& gather_of(self.heap@, gather_id).results@ == fill_slots(r0, indices@.take(k as int), value)
                        &&& same_gather_but_results(h0, self.heap@, gather_id)
                    },
                decreases n - k,
            {
                let ghost h1 = self.heap@;
                let v = value.clone_with_heap(&mut self.heap);
                let ghost h2 = self.heap@;
                self.store_result(gather_id, indices[k], v);
                proof {
                    if fillable {
                        lemma_fill_slots_step(r0, indices@, k as int, value);
                        assert(is_gather(h2, gather_id));
                        assert(gather_of(h2, gather_id) == gather_of(h1, gather_id));
                        assert forall|j: HeapId| #[trigger] self.heap@.live(j) == h0.live(j) by {
                            assert(h1.live(j) == h2.live(j));
                        }
                        assert forall|j: HeapId| #[trigger] h0.live(j) && j != gather_id implies self.heap@.data(j) == h0.data(j) by {
                            assert(h1.live(j));
                        }
                    }
                }
                k = k + 1;
            }
            self.store_result(gather_id, indices[n - 1], value);
            proof {
                if fillable {
                    lemma_fill_slots_step(r0, indices@, k as int, value);
                    assert(indices@.take(n as int) == indices@);
                }
            }
        }
        let ghost h3 = self.heap@;
        let pending_empty = self.remove_gather_call(gather_id, call_id);
        let ghost hrm = self.heap@;
        proof {
            if fillable {
                assert(gather_of(h3, gather_id).pending_calls == gather_of(h0, gather_id).pending_calls);
                assert(gather_of(hrm, gather_id).pending_calls@ == other_calls(gather_of(h0, gather_id).pending_calls@, call_id));
            }
        }
        let ghost g0 = gather_of(h0, gather_id);
        let ghost vals = crate::async_exec::filled(fill_slots(r0, indices@, value));
        proof {
            if cond {
                assert(gather_of(h3, gather_id).pending_calls == gather_of(h0, gather_id).pending_calls);
            }
            if comp {
                assert(gather_of(h3, gather_id).pending_calls == g0.pending_calls);
                assert(gather_of(self.heap@, gather_id).results@ == fill_slots(r0, indices@, value));
            }
        }
        if !pending_empty {
            return Ok(());
        }
        proof {
            assert(!cond);
        }
        if !self.heap.is_live(gather_id) {
            return Ok(());
        }
        let (task_ids, waiter) = match self.heap.get(gather_id) {
            HeapData::GatherFuture(g) => (crate::scheduler::clone_ids(&g.task_ids), g.waiter),
            _ => return Ok(()),
        };
        proof {
            if comp {
                assert(task_ids@ == g0.task_ids@);
                assert(waiter == g0.waiter);
            }
        }
        let mut i: usize = 0;
        while i < task_ids.len()
            invariant
                i <= task_ids@.len(),
                self.heap.wf(),
                self.scheduler.wf(),
                self.scheduler == old(self).scheduler,
                self.stack == old(self).stack,
                self.frames == old(self).frames,
                self.heap@ == hrm,
                self.heap@.live(gather_id),
                fillable == (is_gather(old(self).heap@, gather_id) && indices@.len() > 0
                    && forall|i: int| 0 <= i < indices@.len() ==> #[trigger] indices@[i] < gather_of(old(self).heap@, gather_id).results@.len()),
                fillable ==> gather_of(hrm, gather_id).pending_calls@ == other_calls(gather_of(old(self).heap@, gather_id).pending_calls@, call_id),
                !cond,
                cond == fills_pending_gather(old(self).heap@, call_id, gather_id, indices@),
                comp ==> task_ids@ == g0.task_ids@ && waiter == g0.waiter && g0 == gather_of(old(self).heap@, gather_id),
                comp ==> is_gather(self.heap@, gather_id) && gather_of(self.heap@, gather_id).results@ == fill_slots(r0, indices@, value),
                comp == completes_gather(old(self).heap@, old(self).scheduler, call_id, gather_id, indices@),
            decreases task_ids@.len() - i,
        {
            if self.scheduler.has_unfinished_task(task_ids[i]) {
                return Ok(());
            }
            i = i + 1;
        }
        let waiter_id = match waiter {
            Some(w) => w,
            None => return Ok(()),
        };
        let mut results: Vec<Option<Value>> = Vec::new();
        match self.heap.data_mut(gather_id) {
            HeapData::GatherFuture(g) => {
                core::mem::swap(&mut results, &mut g.results);
                g.task_ids = Vec::new();
            },
            _ => {},
        }
        let ghost hsw = self.heap@;
        proof {
            if comp {
                assert(results@ == fill_slots(r0, indices@, value));
            }
            if fillable {
                assert(gather_of(hsw, gather_id).pending_calls == gather_of(hrm, gather_id).pending_calls);
            }
        }
        let ghost s_before = self.scheduler;
        let mut j: usize = 0;
        while j < task_ids.len()
            invariant
                self.heap.wf(),
                self.scheduler.wf(),
                self.scheduler.pending() == old(self).scheduler.pending(),
                self.scheduler.waiters() == old(self).scheduler.waiters(),
                self.scheduler.resolved() == old(self).scheduler.resolved(),
                self.stack == old(self).stack,
                self.frames == old(self).frames,
                j <= task_ids@.len(),
                s_before == old(self).scheduler,
                crate::heap::room_kept(old(self).heap@, self.heap@),
                crate::heap::only_frees(hsw, self.heap@),
                comp ==> {
                    &&& completes_gather(old(self).heap@, s_before, call_id, gather_id, indices@)
                    &&& task_ids@ == g0.task_ids@ && waiter_id == g0.waiter->0
                    &&& g0 == gather_of(old(self).heap@, gather_id)
                    &&& self.scheduler.tasks().contains_key(waiter_id)
                    &&& self.scheduler.tasks()[waiter_id] == s_before.tasks()[waiter_id]
                    &&& self.scheduler.queue() == s_before.queue()
                    &&& self.scheduler.current() == s_before.current()
                    &&& forall|x: TaskId| #[trigger] self.scheduler.tasks().contains_key(x) ==> s_before.tasks().contains_key(x) && self.scheduler.tasks()[x] == s_before.tasks()[x]
                    &&& forall|q: int| 0 <= q < j ==> !self.scheduler.tasks().contains_key(#[trigger] task_ids@[q])
                },
            decreases task_ids@.len() - j,
        {
            proof {
                if comp && self.scheduler.tasks().contains_key(task_ids@[j as int]) {
                    assert(crate::scheduler::is_final(s_before.tasks()[task_ids@[j as int]].state));
                    assert(task_ids@[j as int] != waiter_id);
                }
            }
            self.scheduler.cancel_task(task_ids[j], &mut self.heap);
            j = j + 1;
        }
        let values = crate::async_exec::unwrap_results(results);
        let has_waiter = self.scheduler.has_task(waiter_id);
        let in_vm = match self.scheduler.current_task_id() {
            Some(c) => c == waiter_id && self.frames.len() > 0,
            None => false,
        };
        if has_waiter {
            if in_vm {
                self.scheduler.set_state(waiter_id, TaskState::Ready, &mut self.heap);
            } else {
                self.scheduler.make_ready(waiter_id, &mut self.heap);
            }
        }
        let ghost hpre = self.heap@;
        let list_id = match self.heap.allocate(HeapData::List(values)) {
            Ok(id) => id,
            Err(e) => return Err(e),
        };
        proof {
            if fillable && is_gather(self.heap@, gather_id) {
                if list_id == gather_id {
                    assert(self.heap@.data(list_id) is List);
                }
                assert(hpre.live(gather_id));
                assert(hsw.live(gather_id));
            }
        }
        if in_vm {
            self.stack.push(Value::Ref(list_id));
        } else if has_waiter {
            self.scheduler.push_to_task_stack(waiter_id, Value::Ref(list_id));
        }
        Ok(())
    }

    /// Resolves an external call with the host's value. The value is ignored when the
    /// task that made the call has failed; it goes to the gather waiting on the call
    /// if there is one; otherwise it is kept until awaited, and the task blocked on
    /// the call becomes ready (see [`Scheduler::resolve`]).
    pub fn resolve_future(&mut self, call_id: CallId, value: Value) -> (r: Result<(), RunError>)
        requires
            old(self).heap.wf(),
            old(self).scheduler.wf(),
        ensures
            final(self).heap.wf(),
            final(self).scheduler.wf(),
            resolve_outcome(*old(self), *final(self), call_id, value, r),

    {
        if let Some(creator) = self.scheduler.get_pending_call_creator(call_id) {
            if self.scheduler.is_task_failed(creator) {
                value.drop_with_heap(&mut self.heap);
                return Ok(());
            }
        }
        match self.scheduler.take_gather_waiter(call_id) {
            Some((gather_id, indices)) => {
                self.scheduler.remove_pending_call(call_id, &mut self.heap);
                self.deliver_to_gather(call_id, gather_id, indices, value)
            },
            None => {
                self.scheduler.resolve(call_id, value);
                proof {
                    assert(self.scheduler.waiters() =~= old(self).scheduler.waiters());
                }
                Ok(())
            },
        }
    }
}

/// What [`VM::next_step`] does, from the VM `s0` before to `s1` after, with result
/// `r`: a failed current task becomes ready and gives its error; a ready current
/// task runs with the result of the call that woke it pushed; otherwise the first
/// queued task is switched in (the running task's context saved, the next one's
/// loaded), and when none is queued the pending calls go back to the host.
pub open spec fn step_outcome(s0: VM, s1: VM, r: Result<ResumeStep, RunError>) -> bool {
    let s = s0.scheduler;
    let cur_state = match s.current() {
        Some(t) => if s.tasks().contains_key(t) { Some(s.tasks()[t].state) } else { None },
        None => None,
    };
    if cur_state matches Some(TaskState::Failed(_)) {
        &&& r == Err::<ResumeStep, RunError>(cur_state->0->Failed_0)
        &&& s1.scheduler.tasks() == s.tasks().insert(s.current()->0, with_state(s.tasks()[s.current()->0], TaskState::Ready))
        &&& s1.stack == s0.stack
    } else if cur_state matches Some(TaskState::Ready) {
        let t = s.current()->0;
        &&& r matches Ok(ResumeStep::Run)
        &&& s1.scheduler.queue() == s.queue().filter(|x: TaskId| x != t)
        &&& match s.tasks()[t].unblocked_by {
            Some(c) => s1.stack@ == if s.resolved().contains_key(c) {
                s0.stack@.push(s.resolved()[c])
            } else {
                s0.stack@
            },
            None => s1.stack@ == s0.stack@,
        }
    } else if s.queue().len() > 0 && s.tasks().contains_key(s.queue()[0]) {
        let next = s.queue()[0];
        let t = s.tasks()[next];
        &&& r matches Ok(v) ==> v is Run
        &&& r matches Err(e) ==> e.exc_type == ExcType::RuntimeError
        &&& t.frames@.len() > 0 && s.current() != Some(next) ==> {
            &&& r matches Ok(ResumeStep::Run)
            &&& s1.scheduler.current() == Some(next)
            &&& s1.scheduler.queue() == s.queue().drop_first()
            &&& s1.frames == t.frames
            &&& s1.stack@ == t.stack@ + resumed_value(s.resolved(), t)
            &&& s1.exception_stack == t.exception_stack
            &&& s1.instruction_ip == t.instruction_ip
            &&& ({
                let c = s.current()->0;
                s.current() is Some && s.tasks().contains_key(c) ==> {
                &&& s1.scheduler.tasks()[c].frames == s0.frames
                &&& s1.scheduler.tasks()[c].stack == s0.stack
                &&& s1.scheduler.tasks()[c].exception_stack == s0.exception_stack
                &&& s1.scheduler.tasks()[c].instruction_ip == s0.instruction_ip
            }})
        }
    } else {
        &&& r matches Ok(ResumeStep::ResolveFutures(ids)) && ids@.no_duplicates() && ids@.to_set() == s.pending().dom()
        &&& s1.scheduler.tasks() == s.tasks()
        &&& s1.stack == s0.stack
    }
}

impl VM {
    /// Applies what the host reports for one external call: a returned value resolves
    /// the call, an error (or a missing function, as NameError) fails it, and a call
    /// still running changes nothing.
    pub fn apply_ext_result(&mut self, call_id: CallId, result: ExtFunctionResult) -> (r: Result<(), RunError>)
        requires
            old(self).heap.wf(),
            old(self).scheduler.wf(),
        ensures
            final(self).heap.wf(),
            final(self).scheduler.wf(),
            result is Future ==> r is Ok && *final(self) == *old(self),
            !(result is Return) ==> r is Ok,
            r matches Err(e) ==> e.exc_type == ExcType::MemoryError,
            match result {
                ExtFunctionResult::Return(v) => resolve_outcome(*old(self), *final(self), call_id, v, r),
                ExtFunctionResult::Error(e) => fail_outcome(*old(self), *final(self), call_id, e),
                ExtFunctionResult::Future(_) => true,
                ExtFunctionResult::NotFound(name) => exists|e: RunError| is_error(e, ExcType::NameError, not_defined_message(name@))
                    && #[trigger] fail_outcome(*old(self), *final(self), call_id, e),
            },
    {
        match result {
            ExtFunctionResult::Return(v) => self.resolve_future(call_id, v),
            ExtFunctionResult::Error(e) => {
                self.fail_future(call_id, e);
                Ok(())
            },
            ExtFunctionResult::Future(_) => Ok(()),
            ExtFunctionResult::NotFound(name) => {
                let e = not_found_exc(name.as_str());
                let ghost eg = e;
                let ghost s0 = *self;
                self.fail_future(call_id, e);
                proof {
                    assert(is_error(eg, ExcType::NameError, not_defined_message(name@)) && fail_outcome(s0, *self, call_id, eg));
                }
                Ok(())
            },
        }
    }

    /// Decides what runs after external calls were settled. A failed current task
    /// becomes ready again and its error is returned. A ready current task gets the
    /// result of the call that woke it (pushed on the stack), leaves the ready queue,
    /// and runs. Otherwise the running task's context is saved, the first ready task
    /// becomes current and its context is loaded (see [`VM::load_or_init_task`]), and
    /// it runs; when no task is ready, the pending calls go back to the host.
    pub fn next_step(&mut self) -> (r: Result<ResumeStep, RunError>)
        requires
            old(self).heap.wf(),
            old(self).scheduler.wf(),
        ensures
            final(self).heap.wf(),
            final(self).scheduler.wf(),
            final(self).scheduler.pending() == old(self).scheduler.pending(),
            final(self).scheduler.waiters() == old(self).scheduler.waiters(),
            step_outcome(*old(self), *final(self), r),
    {
        if let Some(cur) = self.scheduler.current_task_id() {
            if self.scheduler.has_task(cur) {
                let failed = self.scheduler.is_task_failed(cur);
                if failed {
                    let mut st = TaskState::Ready;
                    self.scheduler.swap_state(cur, &mut st);
                    match st {
                        TaskState::Failed(err) => return Err(err),
                        _ => vstd::pervasive::unreached(),
                    }
                }
                let ready = match self.scheduler.get_task(cur).state {
                    TaskState::Ready => true,
                    _ => false,
                };
                if ready {
                    if let Some(v) = self.scheduler.take_resolved_for_task(cur) {
                        self.stack.push(v);
                    }
                    self.scheduler.remove_from_ready_queue(cur);
                    return Ok(ResumeStep::Run);
                }
            }
        }
        let ghost s0 = self.scheduler;
        match self.scheduler.next_ready_task() {
            Some(next) => {
                if !self.scheduler.has_task(next) {
                    // A queued id whose task is gone has nothing to run.
                    return Ok(ResumeStep::ResolveFutures(self.get_pending_call_ids()));
                }
                if let Some(cur) = self.scheduler.current_task_id() {
                    if self.scheduler.has_task(cur) {
                        self.save_task_context(cur);
                    }
                }
                self.scheduler.set_current_task(Some(next));
                proof {
                    assert(self.scheduler.tasks().dom() =~= s0.tasks().dom());
                }
                self.load_or_init_task(next)?;
                Ok(ResumeStep::Run)
            },
            None => Ok(ResumeStep::ResolveFutures(self.get_pending_call_ids())),
        }
    }

    /// Settles each external call the host reports, in order, then decides what runs
    /// next (see [`VM::next_step`]). A MemoryError while settling stops the process
    /// (the remaining reported values are dropped). When every report is of a call
    /// still running, nothing is settled and the decision is taken on the VM as it was.
    #[verifier::loop_isolation(false)]
    pub fn resume_with_resolved_futures(&mut self, results: Vec<(CallId, ExtFunctionResult)>) -> (r: Result<ResumeStep, RunError>)
        requires
            old(self).heap.wf(),
            old(self).scheduler.wf(),
        ensures
            final(self).heap.wf(),
            final(self).scheduler.wf(),
            all_future(results@) ==> step_outcome(*old(self), *final(self), r),
            ({
                ||| exists|mid: VM| #[trigger] settled_by(*old(self), mid, results@) && step_outcome(mid, *final(self), r)
                ||| exists|k: int, mid: VM| 0 <= k < results@.len() && #[trigger] settled_by(*old(self), mid, results@.take(k))
                    && settle_stopped(mid, results@[k], r)
            }),
    {
        let ghost orig = results@;
        let ghost mut vms: Seq<VM> = seq![*self];
        let ghost mut done: int = 0;
        let mut rest = results;
        while rest.len() > 0
            invariant
                self.heap.wf(),
                self.scheduler.wf(),
                all_future(orig) ==> *self == *old(self) && all_future(rest@),
                0 <= done <= orig.len(),
                rest@ == orig.skip(done),
                settle_chain(vms, orig.take(done)),
                vms[0] == *old(self),
                vms.last() == *self,
            decreases rest@.len(),
        {
            let ghost before = rest@;
            let ghost prev = *self;
            let (call_id, res) = rest.remove(0);
            let ghost resg = res;
            proof {
                assert(before[0] == orig[done]);
                assert((call_id, res) == orig[done]);
            }
            proof {
                if all_future(orig) {
                    assert(before[0].1 is Future);
                    assert(res is Future);
                    assert forall|i: int| 0 <= i < rest@.len() implies #[trigger] rest@[i].1 is Future by {
                        assert(rest@[i] == before[i + 1]);
                    }
                }
            }
            match self.apply_ext_result(call_id, res) {
                Ok(()) => {
                    proof {
                        match resg {
                            ExtFunctionResult::Return(v) => {
                                assert(resolve_outcome(prev, *self, call_id, v, Ok(())));
                            },
                            ExtFunctionResult::NotFound(name) => {
                                let e = choose|e: RunError| is_error(e, ExcType::NameError, not_defined_message(name@))
                                    && #[trigger] fail_outcome(prev, *self, call_id, e);
                            },
                            _ => {},
                        }
                        assert(settles(prev, *self, (call_id, resg), Ok(())));
                        let v0 = vms;
                        vms = vms.push(*self);
                        let t1 = orig.take(done + 1);
                        assert forall|i: int| 0 <= i < t1.len() implies #[trigger] settles(vms[i], vms[i + 1], t1[i], Ok(())) by {
                            if i < done {
                                assert(t1[i] == orig.take(done)[i]);
                                assert(vms[i] == v0[i] && vms[i + 1] == v0[i + 1]);
                            } else {
                                assert(vms[i] == prev);
                                assert(t1[i] == orig[done]);
                            }
                        }
                        done = done + 1;
                        assert(rest@ =~= orig.skip(done));
                    }
                },
                Err(e) => {
                    proof {
                        assert(!all_future(orig));
                        assert(settle_stopped(prev, orig[done], Err::<ResumeStep, RunError>(e)));
                        assert(settled_by(*old(self), prev, orig.take(done)));
                    }
                    while rest.len() > 0
                        invariant
                            self.heap.wf(),
                            self.scheduler.wf(),
                        decreases rest@.len(),
                    {
                        let (_, rest) = rest.remove(0);
                        if let ExtFunctionResult::Return(v) = rest {
                            v.drop_with_heap(&mut self.heap);
                        }
                    }
                    return Err(e);
                },
            }
        }
        proof {
            assert(orig.take(done) =~= orig);
            assert(settled_by(*old(self), *self, orig));
        }
        self.next_step()
    }
}

/// What settling one report of the host does to the VM, `s0` before and `s1` after,
/// with result `r` (see [`VM::apply_ext_result`]).
pub open spec fn settles(s0: VM, s1: VM, report: (CallId, ExtFunctionResult), r: Result<(), RunError>) -> bool {
    match report.1 {
        ExtFunctionResult::Return(v) => resolve_outcome(s0, s1, report.0, v, r),
        ExtFunctionResult::Error(e) => r is Ok && fail_outcome(s0, s1, report.0, e),
        ExtFunctionResult::Future(_) => r is Ok && s1 == s0,
        ExtFunctionResult::NotFound(name) => r is Ok && exists|e: RunError| is_error(e, ExcType::NameError, not_defined_message(name@))
            && #[trigger] fail_outcome(s0, s1, report.0, e),
    }
}

/// The VM passes through the states `vms` as the reports are settled in order, each
/// without error.
pub open spec fn settle_chain(vms: Seq<VM>, reports: Seq<(CallId, ExtFunctionResult)>) -> bool {
    &&& vms.len() == reports.len() + 1
    &&& forall|i: int| 0 <= i < reports.len() ==> #[trigger] settles(vms[i], vms[i + 1], reports[i], Ok(()))
}

/// Whether settling `reports` in order, each without error, takes the VM from `s0` to `s1`.
pub open spec fn settled_by(s0: VM, s1: VM, reports: Seq<(CallId, ExtFunctionResult)>) -> bool {
    exists|vms: Seq<VM>| #[trigger] settle_chain(vms, reports) && vms[0] == s0 && vms.last() == s1
}

/// Settling `report` on the VM `s` stopped with result `r`: a returned value that a
/// gather waited on could not be stored (MemoryError).
pub open spec fn settle_stopped(s: VM, report: (CallId, ExtFunctionResult), r: Result<ResumeStep, RunError>) -> bool {
    &&& r matches Err(e) && e.exc_type == ExcType::MemoryError
    &&& report.1 is Return
    &&& !creator_failed(&s.scheduler, report.0)
    &&& s.scheduler.waiters().contains_key(report.0)
}

/// Whether every report says the call is still running.
pub open spec fn all_future(results: Seq<(CallId, ExtFunctionResult)>) -> bool {
    forall|i: int| 0 <= i < results.len() ==> #[trigger] results[i].1 is Future
}

} // verus!
