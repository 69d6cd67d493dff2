//! The `reversed()` builtin.
use vstd::prelude::*;
use crate::exception::{ExcType, RunError, is_error, not_iterable_message};
use crate::heap::{Heap, HeapData, HeapView};
use crate::iter::{iterable_spec, iterate, yields};
use crate::value::{ArgValues, Value, exactly_one_message, no_kwargs_message, py_type_spec, type_str_spec};

verus! {

/// What `reversed(*positional, **kwargs)` returns: a new list of the iterable's values
/// in reverse order.
pub open spec fn reversed_outcome(positional: Seq<Value>, kwargs: Seq<(Value, Value)>, heap: HeapView, r: Result<Value, RunError>, final_heap: HeapView) -> bool {
    if kwargs.len() > 0 {
        r matches Err(e) && is_error(e, ExcType::TypeError, no_kwargs_message("reversed"@))
    } else if positional.len() != 1 {
        r matches Err(e) && is_error(e, ExcType::TypeError, exactly_one_message("reversed"@, positional.len() as int))
    } else if !iterable_spec(positional[0], heap) {
        r matches Err(e) && is_error(e, ExcType::TypeError, not_iterable_message(type_str_spec(py_type_spec(positional[0], heap))))
    } else {
        exists|items: Seq<Value>| #[trigger] yields(positional[0], heap, items) && {
            ||| (r matches Ok(Value::Ref(id)) && final_heap.live(id) && (final_heap.data(id) matches HeapData::List(v) && v@ == items.reverse()))
            ||| (r matches Err(e) && e.exc_type == ExcType::MemoryError && heap.slots.len() >= usize::MAX)
        }
    }
}

/// The values of `v` in reverse order.
fn reverse_values(v: Vec<Value>) -> (r: Vec<Value>)
    ensures
        r@ == v@.reverse(),
{
    let mut v = v;
    let mut r: Vec<Value> = Vec::new();
    let ghost orig = v@;
    while v.len() > 0
        invariant
            orig.len() == v@.len() + r@.len(),
            v@ == orig.subrange(0, v@.len() as int),
            r@ == orig.subrange(v@.len() as int, orig.len() as int).reverse(),
        decreases v.len(),
    {
        let ghost n = v@.len();
        let x = v.pop().unwrap();
        r.push(x);
        proof {
            assert(orig.subrange(n - 1, orig.len() as int).reverse() == orig.subrange(n as int, orig.len() as int).reverse().push(orig[n - 1])) by {
                assert forall|k: int| 0 <= k < orig.len() - n + 1 implies
                    #[trigger] orig.subrange(n - 1, orig.len() as int).reverse()[k] == orig.subrange(n as int, orig.len() as int).reverse().push(orig[n - 1])[k] by {}
                assert(orig.subrange(n - 1, orig.len() as int).reverse().len() == orig.subrange(n as int, orig.len() as int).reverse().push(orig[n - 1]).len());
            }
        }
    }
    assert(orig.subrange(0, orig.len() as int) == orig);
    r
}

/// `reversed(iterable)`: a new list of the iterable's values in reverse order (a list
/// rather than a lazy iterator).
pub fn builtin_reversed(args: ArgValues, heap: &mut Heap) -> (r: Result<Value, RunError>)
    requires
        old(heap).wf(),
    ensures
        final(heap).wf(),
        reversed_outcome(args.positional@, args.kwargs@, old(heap)@, r, final(heap)@),
{
    let value = args.get_one_arg("reversed", heap)?;
    let ghost h0 = heap@;
    let (it, items) = iterate(value, heap)?;
    proof {
        assert(yields(value, h0, items@));
    }
    it.drop_with_heap(heap);
    let items = reverse_values(items);
    let id = heap.allocate(HeapData::List(items))?;
    Ok(Value::Ref(id))
}

} // verus!
