//! The `setattr()` builtin.
use vstd::prelude::*;
use crate::exception::{ExcType, RunError, is_error};
use crate::heap::{Heap, HeapView};
use crate::text::{int_repr, push_str, push_u64, str_to_string};
use crate::value::{ArgValues, Value, drop_pairs, drop_values, no_kwargs_message, py_type, py_type_spec, type_str, type_str_spec};

verus! {

/// `"setattr expected 3 arguments, got {n}"`.
pub open spec fn setattr_count_message(n: int) -> Seq<char> {
    "setattr expected 3 arguments, got "@ + int_repr(n)
}

/// `"attribute name must be string, not '{t}'"`.
pub open spec fn attr_name_message(t: Seq<char>) -> Seq<char> {
    "attribute name must be string, not '"@ + t + "'"@
}

/// `"'{t}' object has no attribute '{name}'"`.
pub open spec fn no_attribute_message(t: Seq<char>, name: Seq<char>) -> Seq<char> {
    "'"@ + t + "' object has no attribute '"@ + name + "'"@
}

/// `setattr(obj, name, value)`. None of the object types held here has settable
/// attributes, so a well-formed call raises AttributeError naming the attribute.
pub fn builtin_setattr(args: ArgValues, heap: &mut Heap) -> (r: Result<Value, RunError>)
    requires
        old(heap).wf(),
    ensures
        final(heap).wf(),
        if args.kwargs@.len() > 0 {
            r matches Err(e) && is_error(e, ExcType::TypeError, no_kwargs_message("setattr"@))
        } else if args.positional@.len() != 3 {
            r matches Err(e) && is_error(e, ExcType::TypeError, setattr_count_message(args.positional@.len() as int))
        } else {
            match args.positional@[1] {
                Value::Str(name) => r matches Err(e) && is_error(e, ExcType::AttributeError,
                    no_attribute_message(type_str_spec(py_type_spec(args.positional@[0], old(heap)@)), name@)),
                other => r matches Err(e) && is_error(e, ExcType::TypeError,
                    attr_name_message(type_str_spec(py_type_spec(other, old(heap)@)))),
            }
        },
{
    let ArgValues { positional, kwargs } = args;
    if kwargs.len() > 0 {
        drop_pairs(kwargs, heap);
        drop_values(positional, heap);
        let mut m = str_to_string("setattr");
        push_str(&mut m, "() takes no keyword arguments");
        return Err(RunError { exc_type: ExcType::TypeError, message: m });
    }
    let n = positional.len();
    if n != 3 {
        drop_values(positional, heap);
        let mut m = str_to_string("setattr expected 3 arguments, got ");
        push_u64(&mut m, n as u64);
        return Err(RunError { exc_type: ExcType::TypeError, message: m });
    }
    let e = match &positional[1] {
        Value::Str(name) => {
            let mut m = str_to_string("'");
            push_str(&mut m, type_str(py_type(&positional[0], heap)));
            push_str(&mut m, "' object has no attribute '");
            push_str(&mut m, name.as_str());
            push_str(&mut m, "'");
            RunError { exc_type: ExcType::AttributeError, message: m }
        },
        other => {
            let mut m = str_to_string("attribute name must be string, not '");
            push_str(&mut m, type_str(py_type(other, heap)));
            push_str(&mut m, "'");
            RunError { exc_type: ExcType::TypeError, message: m }
        },
    };
    drop_values(positional, heap);
    Err(e)
}

} // verus!
