//! The `enumerate()` builtin.
use vstd::prelude::*;
use crate::exception::{ExcType, RunError, is_error, not_iterable_message};
use crate::heap::{Heap, HeapData, HeapView};
use crate::iter::{iterate, iterable_spec, yields};
use crate::text::{push_str, str_to_string};
use crate::value::{ArgValues, Type, Value, drop_values, py_type, py_type_spec, type_str, type_str_spec};

verus! {

/// `"'{t}' object cannot be interpreted as an integer"`.
pub open spec fn not_integer_start_message(t: Seq<char>) -> Seq<char> {
    "'"@ + t + "' object cannot be interpreted as an integer"@
}

/// The start index a `start` argument gives, when it is an int or a bool.
pub open spec fn start_index(start: Option<Value>) -> Option<i64> {
    match start {
        None => Some(0),
        Some(Value::Int(n)) => Some(n),
        Some(Value::Bool(b)) => Some(if b { 1 } else { 0 }),
        _ => None,
    }
}

/// The index after `a`, wrapping around past `i64::MAX` as `i64` arithmetic does.
pub open spec fn wrap_inc(a: i64) -> i64 {
    if a == i64::MAX { i64::MIN } else { (a + 1) as i64 }
}

/// The `i`-th index counting from `start` (`start + i`, wrapping around).
pub open spec fn index_at(start: i64, i: nat) -> i64
    decreases i,
{
    if i == 0 { start } else { wrap_inc(index_at(start, (i - 1) as nat)) }
}

/// Whether `v` refers to the tuple `(index, item)` on the heap.
pub open spec fn is_index_pair(heap: HeapView, v: Value, index: i64, item: Value) -> bool {
    match v {
        Value::Ref(t) => heap.live(t) && match heap.data(t) {
            HeapData::Tuple(pair) => pair@ == seq![Value::Int(index), item],
            _ => false,
        },
        _ => false,
    }
}

/// Whether `v` refers to a list of the `(index, item)` tuples of `items`, the
/// indexes counting from `start`.
pub open spec fn is_enumeration(heap: HeapView, v: Value, items: Seq<Value>, start: i64) -> bool {
    match v {
        Value::Ref(id) => heap.live(id) && match heap.data(id) {
            HeapData::List(vs) => vs@.len() == items.len() && forall|i: int| 0 <= i < items.len()
                ==> is_index_pair(heap, #[trigger] vs@[i], index_at(start, i as nat), items[i]),
            _ => false,
        },
        _ => false,
    }
}

/// `a.wrapping_add(1)` on `i64`.
fn next_index(a: i64) -> (r: i64)
    ensures
        r == wrap_inc(a),
{
    if a == i64::MAX { i64::MIN } else { a + 1 }
}

/// `enumerate(iterable, start=0)`: a list of `(index, value)` tuples for the values
/// the iterable yields, the index counting from `start` (a list rather than a lazy
/// iterator). TypeError for a wrong number of arguments, keyword arguments, a value
/// that is not iterable, or a start that is neither an int nor a bool; MemoryError
/// when the heap is full.
#[verifier::loop_isolation(false)]
pub fn builtin_enumerate(args: ArgValues, heap: &mut Heap) -> (r: Result<Value, RunError>)
    requires
        old(heap).wf(),
    ensures
        final(heap).wf(),
        r matches Err(e) ==> e.exc_type == ExcType::TypeError || e.exc_type == ExcType::MemoryError,
        args.kwargs@.len() == 0 && 1 <= args.positional@.len() <= 2 ==> {
            let it = args.positional@[0];
            let start = if args.positional@.len() == 2 { Some(args.positional@[1]) } else { None::<Value> };
            &&& !iterable_spec(it, old(heap)@) ==> (r matches Err(e)
                && is_error(e, ExcType::TypeError, not_iterable_message(type_str_spec(py_type_spec(it, old(heap)@)))))
            &&& iterable_spec(it, old(heap)@) && start_index(start) is None ==> (r matches Err(e)
                && is_error(e, ExcType::TypeError, not_integer_start_message(type_str_spec(py_type_spec(start->0, old(heap)@)))))
            &&& r matches Ok(v) ==> {
                &&& start_index(start) is Some
                &&& exists|items: Seq<Value>| #[trigger] yields(it, old(heap)@, items)
                    && is_enumeration(final(heap)@, v, items, start_index(start)->0)
            }
        },
{
    let (iterable, start) = args.get_one_two_args("enumerate", heap)?;
    let ghost h0 = heap@;
    let first = match &start {
        None => Some(0i64),
        Some(Value::Int(n)) => Some(*n),
        Some(Value::Bool(b)) => Some(if *b { 1i64 } else { 0i64 }),
        _ => None,
    };
    let start_type: Type = match &start {
        Some(v) => py_type(v, heap),
        None => Type::NoneType,
    };
    let (it, items) = match iterate(iterable, heap) {
        Ok(p) => p,
        Err(e) => {
            crate::value::drop_option(start, heap);
            return Err(e);
        },
    };
    let ghost h1 = heap@;
    let index0 = match first {
        Some(n) => n,
        None => {
            it.drop_with_heap(heap);
            drop_values(items, heap);
            crate::value::drop_option(start, heap);
            let mut m = str_to_string("'");
            push_str(&mut m, type_str(start_type));
            push_str(&mut m, "' object cannot be interpreted as an integer");
            return Err(RunError { exc_type: ExcType::TypeError, message: m });
        },
    };
    it.drop_with_heap(heap);
    crate::value::drop_option(start, heap);
    let ghost all = items@;
    let mut items = items;
    let mut out: Vec<Value> = Vec::new();
    let mut index = index0;
    while items.len() > 0
        invariant
            heap.wf(),
            out@.len() + items@.len() == all.len(),
            items@ == all.skip(out@.len() as int),
            index == index_at(index0, out@.len()),
            forall|i: int| 0 <= i < out@.len() ==> is_index_pair(heap@, #[trigger] out@[i], index_at(index0, i as nat), all[i]),
        decreases items@.len(),
    {
        let item = items.remove(0);
        let ghost k = out@.len() as int;
        let ghost hb = heap@;
        let mut pair: Vec<Value> = Vec::new();
        pair.push(Value::Int(index));
        pair.push(item);
        let tid = match heap.allocate(HeapData::Tuple(pair)) {
            Ok(t) => t,
            Err(e) => {
                drop_values(out, heap);
                drop_values(items, heap);
                return Err(e);
            },
        };
        let ghost out0 = out@;
        let ghost h2 = heap@;
        out.push(Value::Ref(tid));
        proof {
            assert(all[k] == item);
            assert(pair@ == seq![Value::Int(index), item]);
            assert forall|i: int| 0 <= i < out@.len() implies is_index_pair(heap@, #[trigger] out@[i], index_at(index0, i as nat), all[i]) by {
                if i < k {
                    assert(out@[i] == out0[i]);
                    assert(is_index_pair(hb, out0[i], index_at(index0, i as nat), all[i]));
                    if let Value::Ref(t) = out@[i] {
                        assert(hb.live(t));
                        assert(heap@.data(t) == hb.data(t));
                    }
                }
            }
            assert(items@ == all.skip(out@.len() as int));
        }
        index = next_index(index);
    }
    let list = heap.allocate(HeapData::List(out))?;
    Ok(Value::Ref(list))
}

} // verus!
