//! How a REPL run ends without a host, and how it resumes after the host answers a
//! name lookup or resolves external calls.

use monty::date::OsFunction;
use monty::exception::{ExcType, RunError};
use monty::heap::Heap;
use monty::repl::{build_repl_progress, check_call_ids, continuation_mode_for, frame_exit_to_object, Globals, NameLookupResult, ParseOutcome, ReplContinuationMode, ReplNameLookup, ReplProgress, ReplResolveFutures};
use monty::scheduler::TaskFrame;
use monty::value::{ArgValues, Value};
use monty::vm::{ExtFunctionResult, FrameExit, ResumeStep, VM};

fn no_args() -> ArgValues {
    ArgValues::positional_only(vec![])
}

fn standard_error(exit: FrameExit) -> RunError {
    let mut heap = Heap::new(16);
    frame_exit_to_object(Ok(exit), &mut heap).unwrap_err()
}

#[test]
fn standard_run_returns_the_module_value() {
    let mut heap = Heap::new(16);
    let v = frame_exit_to_object(Ok(FrameExit::Return(Value::Int(7))), &mut heap).unwrap();
    assert!(matches!(v, Value::Int(7)));
}

#[test]
fn standard_run_keeps_the_error() {
    let mut heap = Heap::new(16);
    let e = frame_exit_to_object(Err(RunError::from_str(ExcType::ValueError, "bad")), &mut heap).unwrap_err();
    assert_eq!(e.exc_type, ExcType::ValueError);
    assert_eq!(e.message, "bad");
}

#[test]
fn standard_run_cannot_call_external_functions() {
    let e = standard_error(FrameExit::ExternalCall { function_name: "fetch".to_owned(), args: no_args() });
    assert_eq!(e.exc_type, ExcType::NotImplementedError);
    assert_eq!(e.message, "External function 'fetch' not implemented with standard execution");
}

#[test]
fn standard_run_cannot_call_os_functions() {
    let e = standard_error(FrameExit::OsCall { function: OsFunction::DateToday, args: no_args() });
    assert_eq!(e.exc_type, ExcType::NotImplementedError);
    assert_eq!(e.message, "OS function 'date.today' not implemented with standard execution");
}

#[test]
fn standard_run_cannot_call_host_methods() {
    let e = standard_error(FrameExit::MethodCall { method_name: "save".to_owned(), args: no_args() });
    assert_eq!(e.exc_type, ExcType::NotImplementedError);
    assert_eq!(e.message, "Method call 'save' not implemented with standard execution");
}

#[test]
fn standard_run_cannot_wait_on_futures() {
    let e = standard_error(FrameExit::ResolveFutures(vec![1, 2]));
    assert_eq!(e.exc_type, ExcType::NotImplementedError);
    assert_eq!(e.message, "async futures not supported by standard execution.");
}

#[test]
fn standard_run_reports_unknown_names() {
    let e = standard_error(FrameExit::NameLookup { name: "foo".to_owned(), namespace_slot: 0, is_global: true });
    assert_eq!(e.exc_type, ExcType::NameError);
    assert_eq!(e.message, "name 'foo' is not defined");
}

#[test]
fn name_lookup_caches_a_global_and_pushes_it() {
    let mut globals = Globals::new();
    globals.ensure_globals_size(3);
    let lookup = ReplNameLookup::new("limit".to_owned(), 2, true, VM::new());
    assert_eq!(lookup.name(), "limit");
    let (vm, r) = lookup.resume(NameLookupResult::Value(Value::Int(10)), &mut globals);
    assert!(r.is_ok());
    assert!(matches!(globals.values()[2], Value::Int(10)));
    assert!(matches!(globals.values()[0], Value::Undefined));
    assert_eq!(vm.stack.len(), 1);
    assert!(matches!(vm.stack[0], Value::Int(10)));
}

#[test]
fn name_lookup_caches_a_local_in_the_innermost_frame() {
    let mut vm = VM::new();
    vm.stack = vec![Value::Int(1), Value::Undefined, Value::Undefined];
    vm.frames = vec![TaskFrame { function_id: Some(0), ip: 0, stack_base: 1, locals_count: 2 }];
    let mut globals = Globals::new();
    let lookup = ReplNameLookup::new("x".to_owned(), 1, false, vm);
    let (vm, r) = lookup.resume(NameLookupResult::Value(Value::Bool(true)), &mut globals);
    assert!(r.is_ok());
    assert_eq!(vm.stack.len(), 4);
    assert!(matches!(vm.stack[0], Value::Int(1)));
    assert!(matches!(vm.stack[1], Value::Undefined));
    assert!(matches!(vm.stack[2], Value::Bool(true)));
    assert!(matches!(vm.stack[3], Value::Bool(true)));
    assert!(globals.values().is_empty());
}

#[test]
fn name_lookup_undefined_raises_name_error() {
    let mut globals = Globals::new();
    globals.ensure_globals_size(1);
    let lookup = ReplNameLookup::new("missing".to_owned(), 0, true, VM::new());
    let (vm, r) = lookup.resume(NameLookupResult::Undefined, &mut globals);
    let e = r.unwrap_err();
    assert_eq!(e.exc_type, ExcType::NameError);
    assert_eq!(e.message, "name 'missing' is not defined");
    assert!(vm.stack.is_empty());
    assert!(matches!(globals.values()[0], Value::Undefined));
}

#[test]
fn unknown_call_id_is_refused_with_the_pending_list() {
    let results = vec![(1, ExtFunctionResult::Future(1)), (7, ExtFunctionResult::Return(Value::Int(0)))];
    let e = check_call_ids(&results, &vec![1, 2]).unwrap_err();
    assert_eq!(e.exc_type, ExcType::RuntimeError);
    assert_eq!(e.message, "unknown call_id 7, expected one of: [1, 2]");
    let e = check_call_ids(&vec![(3, ExtFunctionResult::Future(3))], &vec![]).unwrap_err();
    assert_eq!(e.message, "unknown call_id 3, expected one of: []");
    assert!(check_call_ids(&vec![(2, ExtFunctionResult::Future(2))], &vec![1, 2]).is_ok());
}

/// A VM whose main task waits on one external call, with that call pending.
fn blocked_vm() -> (VM, u32) {
    let mut vm = VM::new();
    let call = vm.scheduler.allocate_call_id();
    vm.add_pending_call(call);
    vm.scheduler.block_current_on_call(call);
    (vm, call)
}

#[test]
fn resolve_futures_resume_refuses_unknown_ids() {
    let (vm, call) = blocked_vm();
    let paused = ReplResolveFutures::new(vm, vec![call]);
    assert_eq!(paused.pending_call_ids(), &vec![call]);
    let (vm, r) = paused.resume(vec![(call + 5, ExtFunctionResult::Return(Value::Int(1)))]);
    let e = r.unwrap_err();
    assert_eq!(e.exc_type, ExcType::RuntimeError);
    assert_eq!(e.message, format!("unknown call_id {}, expected one of: [{}]", call + 5, call));
    // Nothing was settled: the call is still pending.
    assert_eq!(vm.get_pending_call_ids(), vec![call]);
}

#[test]
fn resolve_futures_resume_runs_the_woken_task() {
    let (vm, call) = blocked_vm();
    let paused = ReplResolveFutures::new(vm, vec![call]);
    let (vm, r) = paused.resume(vec![(call, ExtFunctionResult::Return(Value::Int(42)))]);
    assert!(matches!(r.unwrap(), ResumeStep::Run));
    assert_eq!(vm.stack.len(), 1);
    assert!(matches!(vm.stack[0], Value::Int(42)));
}

#[test]
fn resolve_futures_resume_without_results_asks_again() {
    let (vm, call) = blocked_vm();
    let paused = ReplResolveFutures::new(vm, vec![call]);
    let (_vm, r) = paused.resume(vec![(call, ExtFunctionResult::Future(call))]);
    match r.unwrap() {
        ResumeStep::ResolveFutures(ids) => assert_eq!(ids, vec![call]),
        other => panic!("expected the pending calls, got {other:?}"),
    }
}

#[test]
fn resolve_futures_resume_with_an_error_fails_the_waiting_task() {
    let (vm, call) = blocked_vm();
    let paused = ReplResolveFutures::new(vm, vec![call]);
    let err = RunError { exc_type: ExcType::ValueError, message: "bad".to_string() };
    let (vm, r) = paused.resume(vec![(call, ExtFunctionResult::Error(err))]);
    let e = r.unwrap_err();
    assert_eq!(e.exc_type, ExcType::ValueError);
    assert_eq!(e.message, "bad");
    assert!(vm.get_pending_call_ids().is_empty());
}

/// Session names with one slot (`x`) and snippet names with two (`x` and `y`).
fn name_sets() -> (Globals, Globals) {
    let mut names = Globals::new();
    names.ensure_globals_size(1);
    names.bind("x".to_string(), 0);
    let mut compiled = Globals::new();
    compiled.ensure_globals_size(2);
    compiled.bind("x".to_string(), 0);
    compiled.bind("y".to_string(), 1);
    (names, compiled)
}

#[test]
fn repl_progress_commits_names_when_the_snippet_returns() {
    let (names, compiled) = name_sets();
    match build_repl_progress(Ok(FrameExit::Return(Value::Int(3))), VM::new(), names, compiled) {
        ReplProgress::Complete { names, value } => {
            assert!(matches!(value, Value::Int(3)));
            assert_eq!(names.values().len(), 2);
        },
        _ => panic!("expected a finished snippet"),
    }
}

#[test]
fn repl_progress_commits_names_when_the_snippet_raises() {
    let (names, compiled) = name_sets();
    let err = RunError { exc_type: ExcType::ValueError, message: "boom".to_string() };
    match build_repl_progress(Err(err), VM::new(), names, compiled) {
        ReplProgress::Error { names, error } => {
            assert_eq!(error.message, "boom");
            assert_eq!(names.values().len(), 2);
        },
        _ => panic!("expected an error"),
    }
}

#[test]
fn repl_progress_keeps_names_aside_while_paused() {
    let (names, compiled) = name_sets();
    let exit = FrameExit::ExternalCall { function_name: "fetch".to_string(), args: no_args() };
    match build_repl_progress(Ok(exit), VM::new(), names, compiled) {
        ReplProgress::FunctionCall { function_name, method_call, names, compiled, .. } => {
            assert_eq!(function_name, "fetch");
            assert!(!method_call);
            assert_eq!(names.values().len(), 1);
            assert_eq!(compiled.values().len(), 2);
        },
        _ => panic!("expected a function call"),
    }
    let (names, compiled) = name_sets();
    let exit = FrameExit::MethodCall { method_name: "get".to_string(), args: no_args() };
    match build_repl_progress(Ok(exit), VM::new(), names, compiled) {
        ReplProgress::FunctionCall { function_name, method_call, .. } => {
            assert_eq!(function_name, "get");
            assert!(method_call);
        },
        _ => panic!("expected a method call"),
    }
    let (names, compiled) = name_sets();
    match build_repl_progress(Ok(FrameExit::ResolveFutures(vec![4, 5])), VM::new(), names, compiled) {
        ReplProgress::ResolveFutures { waiting, .. } => assert_eq!(waiting.pending_call_ids(), &vec![4, 5]),
        _ => panic!("expected waiting futures"),
    }
    let (names, compiled) = name_sets();
    let exit = FrameExit::NameLookup { name: "q".to_string(), namespace_slot: 1, is_global: true };
    match build_repl_progress(Ok(exit), VM::new(), names, compiled) {
        ReplProgress::NameLookup { lookup, .. } => assert_eq!(lookup.name(), "q"),
        _ => panic!("expected a name lookup"),
    }
}

#[test]
fn continuation_follows_the_parse_outcome() {
    assert_eq!(continuation_mode_for(&ParseOutcome::Parsed), ReplContinuationMode::Complete);
    assert_eq!(continuation_mode_for(&ParseOutcome::LexicalEof), ReplContinuationMode::IncompleteImplicit);
    assert_eq!(continuation_mode_for(&ParseOutcome::ExpectedTokenAtEnd), ReplContinuationMode::IncompleteImplicit);
    assert_eq!(continuation_mode_for(&ParseOutcome::UnterminatedTripleQuote), ReplContinuationMode::IncompleteImplicit);
    assert_eq!(continuation_mode_for(&ParseOutcome::OtherError), ReplContinuationMode::Complete);
    assert_eq!(
        continuation_mode_for(&ParseOutcome::Message("Expected an indented block after `if` statement".to_string())),
        ReplContinuationMode::IncompleteBlock
    );
    assert_eq!(
        continuation_mode_for(&ParseOutcome::Message("Expected an expression".to_string())),
        ReplContinuationMode::Complete
    );
}
