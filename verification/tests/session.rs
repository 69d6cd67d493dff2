//! Session setup and the global namespace a session calls functions from.

use monty::exception::{ExcType, RunError};
use monty::heap::Heap;
use monty::repl::Globals;
use monty::session::{setup_step, SetupAction, SetupExit};
use monty::value::{ArgValues, Value};

/// Runs setup code that stops once with `exit` and then, if it was answered with an
/// exception that the code does not catch, stops again with that exception.
fn run_setup(exit: SetupExit) -> Result<(), RunError> {
    let mut heap = Heap::new(16);
    match setup_step(Ok(exit), &mut heap) {
        SetupAction::ResumeWithException { error, .. } => match setup_step(Err(error), &mut heap) {
            SetupAction::Finish(r) => r,
            SetupAction::ResumeWithException { .. } => panic!("an error ends setup"),
        },
        SetupAction::Finish(r) => r,
    }
}

#[test]
fn setup_undefined_name_raises_name_error() {
    // `x = undefined_var`: reading the name stops the code with a name lookup.
    let err = run_setup(SetupExit::NameLookup { name: "undefined_var".to_owned() }).unwrap_err();
    assert_eq!(err.exc_type, ExcType::NameError);
    assert!(err.message.contains("name 'undefined_var' is not defined"), "got: {}", err.message);
}

#[test]
fn setup_external_call_raises_name_error() {
    // `result = some_ext_func(1, 2)`: the call stops the code as an external call.
    let exit = SetupExit::ExternalCall {
        function_name: "some_ext_func".to_owned(),
        args: ArgValues::positional_only(vec![Value::Int(1), Value::Int(2)]),
        name_load_ip: Some(3),
    };
    let err = run_setup(exit).unwrap_err();
    assert_eq!(err.exc_type, ExcType::NameError);
    assert!(err.message.contains("name 'some_ext_func' is not defined"), "got: {}", err.message);
}

#[test]
fn setup_external_call_points_at_name_load() {
    let mut heap = Heap::new(16);
    let exit = SetupExit::ExternalCall {
        function_name: "f".to_owned(),
        args: ArgValues::positional_only(vec![]),
        name_load_ip: Some(7),
    };
    match setup_step(Ok(exit), &mut heap) {
        SetupAction::ResumeWithException { set_ip, error } => {
            assert_eq!(set_ip, Some(7));
            assert_eq!(error.message, "name 'f' is not defined");
        }
        SetupAction::Finish(_) => panic!("expected the error to be raised in the code"),
    }
}

#[test]
fn setup_finishing_code_succeeds() {
    let mut heap = Heap::new(16);
    assert!(matches!(setup_step(Ok(SetupExit::Return(Value::NoneValue)), &mut heap), SetupAction::Finish(Ok(()))));
}

#[test]
fn setup_error_ends_setup_with_it() {
    let mut heap = Heap::new(16);
    let e = RunError::from_str(ExcType::ValueError, "kaboom");
    match setup_step(Err(e), &mut heap) {
        SetupAction::Finish(Err(e)) => {
            assert_eq!(e.exc_type, ExcType::ValueError);
            assert_eq!(e.message, "kaboom");
        }
        _ => panic!("expected setup to fail"),
    }
}

/// Globals as the given code leaves them, one slot per name.
fn globals(bindings: Vec<(&str, Value)>) -> Globals {
    let mut g = Globals::new();
    g.ensure_globals_size(bindings.len());
    for (i, (name, v)) in bindings.into_iter().enumerate() {
        g.bind(name.to_owned(), i);
        assert!(g.set_slot(i, v).is_ok());
    }
    g
}

#[test]
fn function_names() {
    // x = 42; def foo(): pass; def bar(): pass
    let g = globals(vec![("x", Value::Int(42)), ("foo", Value::DefFunction(0)), ("bar", Value::DefFunction(1))]);
    let mut names = g.function_names();
    names.sort_unstable();
    assert_eq!(names, vec!["bar", "foo"]);
}

#[test]
fn has_function() {
    // def my_func(): pass; x = 10
    let g = globals(vec![("my_func", Value::DefFunction(0)), ("x", Value::Int(10))]);
    assert!(g.has_function("my_func"));
    assert!(!g.has_function("x")); // not callable
    assert!(!g.has_function("nonexistent"));
}

#[test]
fn call_nonexistent_function() {
    // def foo(): return 1
    let g = globals(vec![("foo", Value::DefFunction(0))]);
    let err = g.resolve_callable_slot("bar").unwrap_err();
    assert!(err.message.contains("name 'bar' is not defined"), "got: {}", err.message);
}

#[test]
fn call_non_callable() {
    // x = 42
    let g = globals(vec![("x", Value::Int(42))]);
    let err = g.resolve_callable_slot("x").unwrap_err();
    assert!(err.message.contains("not callable"), "got: {}", err.message);
    assert_eq!(err.exc_type, ExcType::TypeError);
    assert_eq!(err.message, "'x' is not callable");
}

#[test]
fn resolve_callable_slot_finds_function() {
    let g = globals(vec![("x", Value::Int(1)), ("f", Value::Builtin(3))]);
    assert_eq!(g.resolve_callable_slot("f").unwrap(), 1);
}

#[test]
fn unassigned_global_is_not_defined() {
    let mut g = Globals::new();
    g.ensure_globals_size(1);
    g.bind("late".to_owned(), 0);
    let err = g.resolve_callable_slot("late").unwrap_err();
    assert_eq!(err.exc_type, ExcType::NameError);
    assert!(!g.has_function("late"));
}

#[test]
fn set_slot_out_of_range_hands_value_back() {
    let mut g = Globals::new();
    assert!(matches!(g.set_slot(0, Value::Int(5)), Err(Value::Int(5))));
    g.ensure_globals_size(2);
    assert_eq!(g.values().len(), 2);
    assert!(matches!(g.set_slot(1, Value::Int(5)), Ok(Value::Undefined)));
    assert!(matches!(g.set_slot(1, Value::Int(6)), Ok(Value::Int(5))));
}

#[test]
fn input_script_names_count_up() {
    let mut g = Globals::new();
    assert_eq!(g.next_input_script_name(), "<python-input-0>");
    assert_eq!(g.next_input_script_name(), "<python-input-1>");
    assert_eq!(g.next_input_script_name(), "<python-input-2>");
}

#[test]
fn session_with_inputs() {
    // `def scale(x): return x * factor` with the input name `factor`: setup defines
    // `scale` and finishes; `factor` keeps its slot but is never assigned, since no
    // inputs are passed.
    let mut heap = Heap::new(16);
    let mut g = Globals::new();
    g.ensure_globals_size(2);
    g.bind("factor".to_owned(), 0);
    g.bind("scale".to_owned(), 1);
    assert!(g.set_slot(1, Value::DefFunction(0)).is_ok());
    assert!(matches!(setup_step(Ok(SetupExit::Return(Value::NoneValue)), &mut heap), SetupAction::Finish(Ok(()))));
    assert!(g.has_function("scale"));
    assert!(matches!(g.values()[0], Value::Undefined));
    let err = g.resolve_callable_slot("factor").unwrap_err();
    assert!(err.message.contains("name 'factor' is not defined"), "got: {}", err.message);
}
