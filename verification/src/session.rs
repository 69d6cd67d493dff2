//! Running a session's setup code: a session runs its initial code once to define
//! functions and variables, with no host to answer name lookups or external calls,
//! so both are answered with NameError raised back into the code.
use vstd::prelude::*;
use crate::exception::{ExcType, RunError, is_error};
use crate::heap::Heap;
use crate::value::{ArgValues, Value};
use crate::vm::{not_defined_message, not_found_exc};

verus! {

/// How a run of the setup code stopped.
#[derive(Debug)]
pub enum SetupExit {
    /// The code finished, with the module's value.
    Return(Value),
    /// The code read a name nothing defines.
    NameLookup { name: String },
    /// The code called an external function; `name_load_ip` is where the name was
    /// loaded, for the error to point at.
    ExternalCall { function_name: String, args: ArgValues, name_load_ip: Option<usize> },
}

/// What the session does next.
#[derive(Debug)]
pub enum SetupAction {
    /// Resume the code by raising `error` in it, first moving the instruction pointer
    /// to `set_ip` when given.
    ResumeWithException { error: RunError, set_ip: Option<usize> },
    /// Setup is over: the session is ready, or setup failed with the error.
    Finish(Result<(), RunError>),
}

/// Decides the next step of running setup code, given how the last run stopped: a
/// name lookup or an external call is answered with NameError raised in the code
/// (the call's arguments are dropped); a finished run ends setup (the module's value
/// is dropped); an error ends setup with that error.
pub fn setup_step(exit: Result<SetupExit, RunError>, heap: &mut Heap) -> (r: SetupAction)
    requires
        old(heap).wf(),
    ensures
        final(heap).wf(),
        match exit {
            Ok(SetupExit::NameLookup { name }) => r matches SetupAction::ResumeWithException { error, set_ip }
                && is_error(error, ExcType::NameError, not_defined_message(name@)) && set_ip is None,
            Ok(SetupExit::ExternalCall { function_name, name_load_ip, .. }) => r matches SetupAction::ResumeWithException { error, set_ip }
                && is_error(error, ExcType::NameError, not_defined_message(function_name@)) && set_ip == name_load_ip,
            Ok(SetupExit::Return(_)) => r matches SetupAction::Finish(Ok(())),
            Err(e) => r matches SetupAction::Finish(Err(e2)) && e2 == e,
        },
{
    match exit {
        Ok(SetupExit::NameLookup { name }) => {
            SetupAction::ResumeWithException { error: not_found_exc(name.as_str()), set_ip: None }
        },
        Ok(SetupExit::ExternalCall { function_name, args, name_load_ip }) => {
            args.drop_with_heap(heap);
            SetupAction::ResumeWithException { error: not_found_exc(function_name.as_str()), set_ip: name_load_ip }
        },
        Ok(SetupExit::Return(v)) => {
            v.drop_with_heap(heap);
            SetupAction::Finish(Ok(()))
        },
        Err(e) => SetupAction::Finish(Err(e)),
    }
}

} // verus!
