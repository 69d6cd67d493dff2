//! Python exceptions raised by the runtime: an exception type and its message.
use vstd::prelude::*;
use crate::text::{int_repr, push_i64, push_str, push_u64, str_to_string};

verus! {

/// The Python exception classes raised by this library.
#[derive(Debug, Clone, Copy, PartialEq, Eq, Structural)]
pub enum ExcType {
    TypeError,
    ValueError,
    OverflowError,
    RuntimeError,
    IndexError,
    StopIteration,
    AttributeError,
    NameError,
    NotImplementedError,
    KeyboardInterrupt,
    MemoryError,
}

/// A raised Python exception: its class and message.
#[derive(Debug)]
pub struct RunError {
    pub exc_type: ExcType,
    pub message: String,
}

/// What the `RunError` built from `exc_type` and `message` looks like.
pub open spec fn is_error(e: RunError, exc_type: ExcType, message: Seq<char>) -> bool {
    e.exc_type == exc_type && e.message@ == message
}

impl RunError {
    /// An exception of class `exc_type` with the given message.
    pub fn new(exc_type: ExcType, message: String) -> (r: RunError)
        ensures
            r.exc_type == exc_type,
            r.message@ == message@,
    {
        RunError { exc_type, message }
    }

    /// An exception of class `exc_type` whose message is a string literal.
    pub fn from_str(exc_type: ExcType, message: &str) -> (r: RunError)
        ensures
            r.exc_type == exc_type,
            r.message@ == message@,
    {
        RunError { exc_type, message: str_to_string(message) }
    }
}

/// `"{name} expected at least {min} argument(s), got {got}"`, CPython's message for too
/// few positional arguments.
pub open spec fn at_least_message(name: Seq<char>, min: int, got: int) -> Seq<char> {
    name + " expected at least "@ + int_repr(min) + if min == 1 { " argument, got "@ } else {
        " arguments, got "@
    } + int_repr(got)
}

/// `"{name} expected at most {max} argument(s), got {got}"`, CPython's message for too
/// many positional arguments.
pub open spec fn at_most_message(name: Seq<char>, max: int, got: int) -> Seq<char> {
    name + " expected at most "@ + int_repr(max) + if max == 1 { " argument, got "@ } else {
        " arguments, got "@
    } + int_repr(got)
}

/// TypeError for a call with fewer than `min` positional arguments.
pub fn type_error_at_least(name: &str, min: i64, got: usize) -> (r: RunError)
    ensures
        is_error(r, ExcType::TypeError, at_least_message(name@, min as int, got as int)),
{
    let mut m = str_to_string(name);
    push_str(&mut m, " expected at least ");
    push_i64(&mut m, min);
    if min == 1 {
        push_str(&mut m, " argument, got ");
    } else {
        push_str(&mut m, " arguments, got ");
    }
    push_u64(&mut m, got as u64);
    RunError { exc_type: ExcType::TypeError, message: m }
}

/// TypeError for a call with more than `max` positional arguments.
pub fn type_error_at_most(name: &str, max: i64, got: usize) -> (r: RunError)
    ensures
        is_error(r, ExcType::TypeError, at_most_message(name@, max as int, got as int)),
{
    let mut m = str_to_string(name);
    push_str(&mut m, " expected at most ");
    push_i64(&mut m, max);
    if max == 1 {
        push_str(&mut m, " argument, got ");
    } else {
        push_str(&mut m, " arguments, got ");
    }
    push_u64(&mut m, got as u64);
    RunError { exc_type: ExcType::TypeError, message: m }
}

/// `"'{tname}' object is not iterable"`.
pub open spec fn not_iterable_message(tname: Seq<char>) -> Seq<char> {
    "'"@ + tname + "' object is not iterable"@
}

/// TypeError for iterating a value that is not iterable.
pub fn type_error_not_iterable(tname: &str) -> (r: RunError)
    ensures
        is_error(r, ExcType::TypeError, not_iterable_message(tname@)),
{
    let mut m = str_to_string("'");
    push_str(&mut m, tname);
    push_str(&mut m, "' object is not iterable");
    RunError { exc_type: ExcType::TypeError, message: m }
}

/// `"{func}() got an unexpected keyword argument '{key}'"`.
pub open spec fn unexpected_keyword_message(func: Seq<char>, key: Seq<char>) -> Seq<char> {
    func + "() got an unexpected keyword argument '"@ + key + "'"@
}

/// TypeError for a keyword argument the function does not accept.
pub fn type_error_unexpected_keyword(func: &str, key: &str) -> (r: RunError)
    ensures
        is_error(r, ExcType::TypeError, unexpected_keyword_message(func@, key@)),
{
    let mut m = str_to_string(func);
    push_str(&mut m, "() got an unexpected keyword argument '");
    push_str(&mut m, key);
    push_str(&mut m, "'");
    RunError { exc_type: ExcType::TypeError, message: m }
}

} // verus!
