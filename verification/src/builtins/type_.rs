//! The `type()` builtin.
use vstd::prelude::*;
use crate::exception::{ExcType, RunError, is_error};
use crate::heap::{Heap, HeapView};
use crate::value::{ArgValues, Value, exactly_one_message, no_kwargs_message, py_type, py_type_spec};

verus! {

/// `type(obj)`: the type object of the single argument.
pub fn builtin_type(args: ArgValues, heap: &mut Heap) -> (r: Result<Value, RunError>)
    requires
        old(heap).wf(),
    ensures
        final(heap).wf(),
        if args.kwargs@.len() > 0 {
            r matches Err(e) && is_error(e, ExcType::TypeError, no_kwargs_message("type"@))
        } else if args.positional@.len() != 1 {
            r matches Err(e) && is_error(e, ExcType::TypeError, exactly_one_message("type"@, args.positional@.len() as int))
        } else {
            r == Ok::<Value, RunError>(Value::TypeObject(py_type_spec(args.positional@[0], old(heap)@)))
        },
{
    let value = args.get_one_arg("type", heap)?;
    let t = py_type(&value, heap);
    value.drop_with_heap(heap);
    Ok(Value::TypeObject(t))
}

} // verus!
