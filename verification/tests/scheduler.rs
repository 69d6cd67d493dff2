//! The async scheduler and the VM's handling of external calls.

use monty::exception::{ExcType, RunError};
use monty::heap::Heap;
use monty::scheduler::{PendingCallData, Scheduler, TaskState};
use monty::value::{ArgValues, Value};
use monty::async_exec::AwaitResult;
use monty::async_state::{Coroutine, CoroutineState, GatherFuture, GatherItem};
use monty::heap::HeapData;
use monty::scheduler::TaskFrame;
use monty::vm::{ExtFunctionResult, ResumeStep, VM};

fn pending(creator_task: u32) -> PendingCallData {
    PendingCallData { args: ArgValues::positional_only(vec![]), creator_task }
}

#[test]
fn new_scheduler_runs_the_main_task() {
    let s = Scheduler::new();
    assert_eq!(s.current_task_id(), Some(0));
    assert!(s.has_task(0));
    assert!(s.has_unfinished_task(0));
    assert!(!s.has_task(1));
    assert!(matches!(s.get_task(0).state, TaskState::Ready));
    assert!(s.pending_call_ids().is_empty());
}

#[test]
fn call_ids_are_never_reused() {
    let mut s = Scheduler::new();
    let a = s.allocate_call_id();
    let b = s.allocate_call_id();
    let c = s.allocate_call_id();
    assert_eq!((a, b, c), (0, 1, 2));
}

#[test]
fn resolving_a_call_wakes_its_task_and_keeps_the_value() {
    let mut s = Scheduler::new();
    let call = s.allocate_call_id();
    s.add_pending_call(call, pending(0));
    s.block_current_on_call(call);
    assert!(matches!(s.get_task(0).state, TaskState::BlockedOnCall(c) if c == call));
    assert_eq!(s.get_pending_call_creator(call), Some(0));

    s.resolve(call, Value::Int(42));
    assert!(matches!(s.get_task(0).state, TaskState::Ready));
    assert!(s.pending_call_ids().is_empty());
    assert_eq!(s.next_ready_task(), Some(0));
    assert!(matches!(s.take_resolved_for_task(0), Some(Value::Int(42))));
    assert!(s.take_resolved(call).is_none());
}

#[test]
fn take_resolved_gives_back_what_resolve_stored() {
    let mut s = Scheduler::new();
    s.resolve(7, Value::Str("done".to_owned()));
    assert!(matches!(s.take_resolved(7), Some(Value::Str(ref v)) if v == "done"));
    assert!(s.take_resolved(7).is_none());
}

#[test]
fn consumed_calls_are_remembered() {
    let mut s = Scheduler::new();
    assert!(!s.is_consumed(3));
    s.mark_consumed(3);
    assert!(s.is_consumed(3));
    assert!(!s.is_consumed(4));
}

#[test]
fn failing_a_call_fails_its_task() {
    let mut heap = Heap::new(4);
    let mut s = Scheduler::new();
    let call = s.allocate_call_id();
    s.add_pending_call(call, pending(0));
    s.block_current_on_call(call);
    s.fail_for_call(call, RunError::from_str(ExcType::ValueError, "host said no"), &mut heap);
    assert!(s.is_task_failed(0));
    assert!(s.pending_call_ids().is_empty());
}

#[test]
fn vm_resumes_the_task_with_the_host_result() {
    let mut vm = VM::new();
    let call = vm.scheduler.allocate_call_id();
    vm.add_pending_call(call);
    vm.scheduler.block_current_on_call(call);

    // Nothing can run yet: the host is asked for the pending call.
    match vm.next_step().unwrap() {
        ResumeStep::ResolveFutures(ids) => assert_eq!(ids, vec![call]),
        other => panic!("expected the pending calls, got {other:?}"),
    }

    let step = vm.resume_with_resolved_futures(vec![(call, ExtFunctionResult::Return(Value::Int(42)))]).unwrap();
    assert!(matches!(step, ResumeStep::Run));
    assert_eq!(vm.stack.len(), 1);
    assert!(matches!(vm.stack[0], Value::Int(42)));
}

#[test]
fn vm_raises_the_host_error_in_the_task() {
    let mut vm = VM::new();
    let call = vm.scheduler.allocate_call_id();
    vm.add_pending_call(call);
    vm.scheduler.block_current_on_call(call);
    let e = vm
        .resume_with_resolved_futures(vec![(call, ExtFunctionResult::Error(RunError::from_str(ExcType::ValueError, "kaboom")))])
        .unwrap_err();
    assert_eq!(e.exc_type, ExcType::ValueError);
    assert_eq!(e.message, "kaboom");
    // The task is ready again, to run its exception handlers.
    assert!(matches!(vm.scheduler.get_task(0).state, TaskState::Ready));
}

#[test]
fn vm_reports_a_missing_host_function_as_name_error() {
    let mut vm = VM::new();
    let call = vm.scheduler.allocate_call_id();
    vm.add_pending_call(call);
    vm.scheduler.block_current_on_call(call);
    let e = vm
        .resume_with_resolved_futures(vec![(call, ExtFunctionResult::NotFound("fetch".to_owned()))])
        .unwrap_err();
    assert_eq!(e.exc_type, ExcType::NameError);
    assert_eq!(e.message, "name 'fetch' is not defined");
}

#[test]
fn a_call_still_running_changes_nothing() {
    let mut vm = VM::new();
    let call = vm.scheduler.allocate_call_id();
    vm.add_pending_call(call);
    vm.scheduler.block_current_on_call(call);
    match vm.resume_with_resolved_futures(vec![(call, ExtFunctionResult::Future(call))]).unwrap() {
        ResumeStep::ResolveFutures(ids) => assert_eq!(ids, vec![call]),
        other => panic!("expected the pending calls, got {other:?}"),
    }
    assert_eq!(vm.get_pending_call_ids(), vec![call]);
}

fn frame(ip: usize) -> TaskFrame {
    TaskFrame { function_id: None, ip, stack_base: 0, locals_count: 0 }
}

fn coroutine(vm: &mut VM, func_id: u32, namespace: Vec<Value>) -> usize {
    vm.heap.allocate(HeapData::Coroutine(Coroutine { func_id, namespace, state: CoroutineState::New })).unwrap()
}

fn gather(vm: &mut VM, items: Vec<GatherItem>) -> usize {
    let n = items.len();
    let results = (0..n).map(|_| None).collect();
    vm.heap
        .allocate(HeapData::GatherFuture(GatherFuture { items, results, pending_calls: vec![], task_ids: vec![], waiter: None }))
        .unwrap()
}

fn list_ints(vm: &VM, v: &Value) -> Vec<i64> {
    match v {
        Value::Ref(id) => match vm.heap.get(*id) {
            HeapData::List(items) => items.iter().map(|x| if let Value::Int(n) = x { *n } else { panic!("not an int: {x:?}") }).collect(),
            other => panic!("expected a list, got {other:?}"),
        },
        other => panic!("expected a list reference, got {other:?}"),
    }
}

#[test]
fn awaiting_a_coroutine_pushes_its_frame_once() {
    let mut vm = VM::new();
    vm.frames.push(frame(3));
    let c = coroutine(&mut vm, 7, vec![Value::Int(1), Value::Int(2)]);
    vm.stack.push(Value::Int(99));
    vm.heap.inc_ref(c);
    vm.stack.push(Value::Ref(c));
    assert!(matches!(vm.exec_get_awaitable().unwrap(), AwaitResult::FramePushed));
    assert_eq!(vm.frames.len(), 2);
    assert_eq!(vm.frames[1].function_id, Some(7));
    assert_eq!(vm.frames[1].stack_base, 1);
    assert_eq!(vm.frames[1].locals_count, 2);
    assert_eq!(vm.stack.len(), 3);
    assert!(matches!(vm.heap.get(c), HeapData::Coroutine(co) if co.state == CoroutineState::Running));

    vm.stack.push(Value::Ref(c));
    let e = vm.exec_get_awaitable().unwrap_err();
    assert_eq!(e.exc_type, ExcType::RuntimeError);
    assert_eq!(e.message, "cannot reuse already awaited coroutine");
}

#[test]
fn awaiting_something_else_is_a_type_error() {
    let mut vm = VM::new();
    vm.stack.push(Value::Int(5));
    let e = vm.exec_get_awaitable().unwrap_err();
    assert_eq!(e.exc_type, ExcType::TypeError);
    assert_eq!(e.message, "object int can't be used in 'await' expression");
    assert!(vm.stack.is_empty());
}

#[test]
fn an_external_future_can_be_awaited_once() {
    let mut vm = VM::new();
    vm.frames.push(frame(0));
    let call = vm.scheduler.allocate_call_id();
    vm.add_pending_call(call);
    vm.resolve_future(call, Value::Int(8)).unwrap();
    vm.stack.push(Value::ExternalFuture(call));
    assert!(matches!(vm.exec_get_awaitable().unwrap(), AwaitResult::ValueReady(Value::Int(8))));
    vm.stack.push(Value::ExternalFuture(call));
    let e = vm.exec_get_awaitable().unwrap_err();
    assert_eq!(e.message, "cannot reuse already awaited future");
}

#[test]
fn awaiting_an_unresolved_future_yields_to_the_host() {
    let mut vm = VM::new();
    vm.frames.push(frame(0));
    let call = vm.scheduler.allocate_call_id();
    vm.add_pending_call(call);
    match vm.await_external_future(call).unwrap() {
        AwaitResult::Yield(ids) => assert_eq!(ids, vec![call]),
        other => panic!("expected to yield, got {other:?}"),
    }
    assert!(matches!(vm.scheduler.get_task(0).state, TaskState::BlockedOnCall(c) if c == call));
    // The main task's frames stay loaded for the host.
    assert_eq!(vm.frames.len(), 1);
}

#[test]
fn empty_gather_gives_an_empty_list() {
    let mut vm = VM::new();
    let g = gather(&mut vm, vec![]);
    match vm.await_gather_future(g).unwrap() {
        AwaitResult::ValueReady(v) => assert!(list_ints(&vm, &v).is_empty()),
        other => panic!("expected a list, got {other:?}"),
    }
}

#[test]
fn gather_of_resolved_futures_completes_at_once() {
    let mut vm = VM::new();
    vm.frames.push(frame(0));
    let a = vm.scheduler.allocate_call_id();
    let b = vm.scheduler.allocate_call_id();
    vm.add_pending_call(a);
    vm.add_pending_call(b);
    vm.resolve_future(a, Value::Int(1)).unwrap();
    vm.resolve_future(b, Value::Int(2)).unwrap();
    // gather(b, a, b): the same future fills every slot it appears in.
    let g = gather(&mut vm, vec![GatherItem::ExternalFuture(b), GatherItem::ExternalFuture(a), GatherItem::ExternalFuture(b)]);
    match vm.await_gather_future(g).unwrap() {
        AwaitResult::ValueReady(v) => assert_eq!(list_ints(&vm, &v), vec![2, 1, 2]),
        other => panic!("expected a list, got {other:?}"),
    }
    assert!(vm.scheduler.is_consumed(a) && vm.scheduler.is_consumed(b));
    let again = gather(&mut vm, vec![GatherItem::ExternalFuture(a)]);
    let e = vm.await_gather_future(again).unwrap_err();
    assert_eq!(e.message, "cannot reuse already awaited future");
    let e = vm.await_gather_future(g).unwrap_err();
    assert_eq!(e.message, "cannot reuse already awaited gather");
}

#[test]
fn a_resolved_call_fills_its_gather_slots_while_others_are_pending() {
    let mut vm = VM::new();
    vm.frames.push(frame(0));
    let a = vm.scheduler.allocate_call_id();
    let b = vm.scheduler.allocate_call_id();
    vm.add_pending_call(a);
    vm.add_pending_call(b);
    // gather(a, b, a): both calls are still running.
    let g = gather(&mut vm, vec![GatherItem::ExternalFuture(a), GatherItem::ExternalFuture(b), GatherItem::ExternalFuture(a)]);
    match vm.await_gather_future(g).unwrap() {
        AwaitResult::Yield(mut ids) => {
            ids.sort();
            assert_eq!(ids, vec![a, b]);
        },
        other => panic!("expected to yield, got {other:?}"),
    }
    // `a` resolves: both of its slots are filled, the gather still waits on `b`.
    vm.resolve_future(a, Value::Int(7)).unwrap();
    match vm.heap.get(g) {
        HeapData::GatherFuture(gf) => {
            assert!(matches!(gf.results[0], Some(Value::Int(7))));
            assert!(gf.results[1].is_none());
            assert!(matches!(gf.results[2], Some(Value::Int(7))));
            assert_eq!(gf.pending_calls, vec![b]);
        },
        other => panic!("expected the gather, got {other:?}"),
    }
    assert!(matches!(vm.scheduler.get_task(0).state, TaskState::BlockedOnGather(id) if id == g));
    // `b` resolves: the gather completes and the main task gets [7, 8, 7].
    vm.resolve_future(b, Value::Int(8)).unwrap();
    assert!(matches!(vm.scheduler.get_task(0).state, TaskState::Ready));
    let top = vm.stack.last().expect("the results are pushed");
    assert_eq!(list_ints(&vm, top), vec![7, 8, 7]);
}

#[test]
fn gather_of_coroutines_runs_tasks_and_wakes_the_waiter() {
    let mut vm = VM::new();
    vm.frames.push(frame(5));
    vm.stack.push(Value::Int(100));
    let c1 = coroutine(&mut vm, 1, vec![]);
    let c2 = coroutine(&mut vm, 2, vec![Value::Int(9)]);
    let g = gather(&mut vm, vec![GatherItem::Coroutine(c1), GatherItem::Coroutine(c2)]);

    // The main task blocks and the first spawned task starts.
    assert!(matches!(vm.await_gather_future(g).unwrap(), AwaitResult::FramePushed));
    assert_eq!(vm.scheduler.current_task_id(), Some(1));
    assert!(vm.is_spawned_task());
    assert_eq!(vm.frames.len(), 1);
    assert_eq!(vm.frames[0].function_id, Some(1));
    assert_eq!(vm.scheduler.get_task(0).frames.len(), 1);
    assert!(matches!(vm.scheduler.get_task(0).state, TaskState::BlockedOnGather(id) if id == g));

    // Task 1 returns 10; task 2 runs next.
    assert!(matches!(vm.handle_task_completion(Value::Int(10)).unwrap(), AwaitResult::FramePushed));
    assert_eq!(vm.scheduler.current_task_id(), Some(2));
    assert_eq!(vm.frames[0].function_id, Some(2));
    assert!(matches!(vm.stack[0], Value::Int(9)));

    // Task 2 returns 20: the gather is complete and the main task resumes with [10, 20].
    assert!(matches!(vm.handle_task_completion(Value::Int(20)).unwrap(), AwaitResult::FramePushed));
    assert_eq!(vm.scheduler.current_task_id(), Some(0));
    assert!(!vm.is_spawned_task());
    assert_eq!(vm.frames.len(), 1);
    assert_eq!(vm.frames[0].ip, 5);
    assert_eq!(vm.stack.len(), 2);
    assert!(matches!(vm.stack[0], Value::Int(100)));
    assert_eq!(list_ints(&vm, &vm.stack[1]), vec![10, 20]);
    assert!(!vm.scheduler.has_task(1) && !vm.scheduler.has_task(2));
}

#[test]
fn a_failing_gathered_task_raises_in_the_waiter() {
    let mut vm = VM::new();
    vm.frames.push(frame(5));
    let c1 = coroutine(&mut vm, 1, vec![]);
    let c2 = coroutine(&mut vm, 2, vec![]);
    let g = gather(&mut vm, vec![GatherItem::Coroutine(c1), GatherItem::Coroutine(c2)]);
    assert!(matches!(vm.await_gather_future(g).unwrap(), AwaitResult::FramePushed));
    let e = vm.handle_task_failure(RunError::from_str(ExcType::ValueError, "boom")).unwrap_err();
    assert_eq!(e.exc_type, ExcType::ValueError);
    assert_eq!(e.message, "boom");
    assert_eq!(vm.scheduler.current_task_id(), Some(0));
    assert_eq!(vm.frames[0].ip, 5);
    assert!(!vm.scheduler.has_task(1) && !vm.scheduler.has_task(2));
}

#[test]
fn saving_then_loading_a_context_gives_it_back() {
    let mut vm = VM::new();
    vm.frames.push(frame(1));
    vm.frames.push(frame(2));
    vm.stack.push(Value::Int(4));
    vm.instruction_ip = 17;
    vm.recursion_depth = 3;
    vm.save_task_context(0);
    assert!(vm.frames.is_empty() && vm.stack.is_empty());
    assert_eq!(vm.recursion_depth, 2);
    vm.load_or_init_task(0).unwrap();
    assert_eq!(vm.frames.len(), 2);
    assert_eq!(vm.frames[1].ip, 2);
    assert!(matches!(vm.stack[0], Value::Int(4)));
    assert_eq!(vm.instruction_ip, 17);
    assert_eq!(vm.recursion_depth, 3);
}

#[test]
fn gather_results_keep_gather_order_whatever_finishes_last() {
    let mut vm = VM::new();
    vm.frames.push(frame(3));
    let c0 = coroutine(&mut vm, 1, vec![]);
    let c1 = coroutine(&mut vm, 2, vec![]);
    // gather(c0, c1, c0): c0 runs once and fills both of its slots.
    let g = gather(&mut vm, vec![GatherItem::Coroutine(c0), GatherItem::Coroutine(c1), GatherItem::Coroutine(c0)]);
    assert!(matches!(vm.await_gather_future(g).unwrap(), AwaitResult::FramePushed));
    assert_eq!(vm.scheduler.current_task_id(), Some(1));
    assert!(matches!(vm.handle_task_completion(Value::Int(1)).unwrap(), AwaitResult::FramePushed));
    assert_eq!(vm.scheduler.current_task_id(), Some(2));
    assert!(matches!(vm.handle_task_completion(Value::Int(2)).unwrap(), AwaitResult::FramePushed));
    assert_eq!(vm.scheduler.current_task_id(), Some(0));
    assert!(matches!(vm.scheduler.get_task(0).state, TaskState::Ready));
    assert_eq!(list_ints(&vm, vm.stack.last().unwrap()), vec![1, 2, 1]);
    assert!(!vm.scheduler.has_task(1) && !vm.scheduler.has_task(2) && !vm.scheduler.has_task(3));
}

#[test]
fn a_gather_listing_one_fresh_future_twice_is_accepted() {
    let mut vm = VM::new();
    vm.frames.push(frame(0));
    let a = vm.scheduler.allocate_call_id();
    vm.add_pending_call(a);
    let g = gather(&mut vm, vec![GatherItem::ExternalFuture(a), GatherItem::ExternalFuture(a)]);
    match vm.await_gather_future(g).unwrap() {
        AwaitResult::Yield(ids) => assert_eq!(ids, vec![a]),
        other => panic!("expected to yield, got {other:?}"),
    }
    vm.resolve_future(a, Value::Int(5)).unwrap();
    assert!(matches!(vm.scheduler.get_task(0).state, TaskState::Ready));
    assert_eq!(list_ints(&vm, vm.stack.last().unwrap()), vec![5, 5]);
}
