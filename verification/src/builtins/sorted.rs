//! The `sorted()` builtin: `sorted(iterable, /, *, key=None, reverse=False)`.
//!
//! A `key=` function is user code: when one is given, the call stops with the
//! values so the caller can compute their keys, and [`SortedPending::finish`] sorts.
use vstd::prelude::*;
use crate::builtins::min_max::CallStep;
use crate::exception::{ExcType, RunError, is_error, not_iterable_message};
use crate::heap::{Heap, HeapData, HeapView};
use crate::iter::{iterable_spec, iterate, yields};
use crate::sorting::{all_comparable, lemma_all_comparable_agrees, lemma_sorted_result_agrees, lemma_unordered_pair_error_agrees, sort_values, sorted_result, unordered_pair_error};
use crate::text::{int_repr, push_str, push_u64, str_to_string};
use crate::value::{ArgValues, Value, drop_option, drop_pairs, drop_values, kw_parse, parse_named_kwargs_pair, py_bool, py_type_spec, truthy, type_str_spec};

verus! {

/// A `sorted()` call waiting for the key function's result on each value.
#[derive(Debug)]
pub struct SortedPending {
    pub items: Vec<Value>,
    pub key_fn: Value,
    pub reverse: bool,
}

/// `"sorted expected 1 argument, got {n}"`.
pub open spec fn sorted_expected_message(n: int) -> Seq<char> {
    "sorted expected 1 argument, got "@ + int_repr(n)
}

/// The keyword arguments of `sorted()`: the key function (`None` when absent or
/// `None`) and the truth of `reverse` (false when absent), or the TypeError message.
/// CPython words an unknown keyword as one of `sort()`.
pub open spec fn sorted_kwargs(kwargs: Seq<(Value, Value)>, heap: HeapView) -> Result<(Option<Value>, bool), Seq<char>> {
    match kw_parse(kwargs, "sorted"@, "sort"@, "key"@, "reverse"@) {
        Err(m) => Err(m),
        Ok((k, rv)) => Ok((
            if k matches Some(Value::NoneValue) { None } else { k },
            match rv { Some(v) => truthy(v, heap), None => false },
        )),
    }
}

/// What sorting `items` by themselves gives: the new list, or the TypeError for two
/// values that cannot be ordered, or MemoryError when the heap has no slot left.
pub open spec fn sorted_list_outcome(r: Result<Value, RunError>, items: Seq<Value>, keys: Seq<Value>, reverse: bool, heap: HeapView, final_heap: HeapView) -> bool {
    if items.len() <= 1 || all_comparable(keys, heap) {
        ||| (r matches Ok(Value::Ref(id)) && final_heap.live(id) && (final_heap.data(id) matches HeapData::List(v)
                && sorted_result(v@, items, keys, reverse, heap)))
        ||| (r matches Err(e) && e.exc_type == ExcType::MemoryError && heap.slots.len() >= usize::MAX)
    } else {
        r matches Err(e) && unordered_pair_error(keys, e, heap)
    }
}

/// What `sorted(*positional, **kwargs)` returns.
pub open spec fn sorted_outcome(positional: Seq<Value>, kwargs: Seq<(Value, Value)>, heap: HeapView, r: Result<CallStep<SortedPending>, RunError>, final_heap: HeapView) -> bool {
    if positional.len() != 1 {
        r matches Err(e) && is_error(e, ExcType::TypeError, sorted_expected_message(positional.len() as int))
    } else {
        match sorted_kwargs(kwargs, heap) {
            Err(m) => r matches Err(e) && is_error(e, ExcType::TypeError, m),
            Ok((key, reverse)) => if !iterable_spec(positional[0], heap) {
                r matches Err(e) && is_error(e, ExcType::TypeError, not_iterable_message(type_str_spec(py_type_spec(positional[0], heap))))
            } else {
                exists|items: Seq<Value>| #[trigger] yields(positional[0], heap, items) && if key is Some {
                    r matches Ok(CallStep::NeedKeys(p)) && p.items@ == items && p.key_fn == key.unwrap() && p.reverse == reverse
                } else {
                    match r {
                        Ok(CallStep::Done(v)) => sorted_list_outcome(Ok(v), items, items, reverse, heap, final_heap),
                        Ok(CallStep::NeedKeys(_)) => false,
                        Err(e) => sorted_list_outcome(Err(e), items, items, reverse, heap, final_heap),
                    }
                }
            },
        }
    }
}

/// Splits the arguments of `sorted()`: the iterable, the key function, the truth of
/// `reverse`, and the `reverse` value itself (to be dropped by the caller).
fn parse_sorted_args(args: ArgValues, heap: &mut Heap) -> (r: Result<(Value, Option<Value>, bool, Option<Value>), RunError>)
    requires
        old(heap).wf(),
    ensures
        final(heap).wf(),
        if args.positional@.len() != 1 {
            r matches Err(e) && is_error(e, ExcType::TypeError, sorted_expected_message(args.positional@.len() as int))
        } else {
            match sorted_kwargs(args.kwargs@, old(heap)@) {
                Err(m) => r matches Err(e) && is_error(e, ExcType::TypeError, m),
                Ok((key, reverse)) => r matches Ok((it, k, rev, _)) && it == args.positional@[0] && k == key && rev == reverse
                    && final(heap)@ == old(heap)@,
            }
        },
        r is Err ==> crate::heap::args_released(old(heap)@, final(heap)@, args.positional@, args.kwargs@),
{
    let ArgValues { positional, kwargs } = args;
    let n = positional.len();
    if n != 1 {
        drop_pairs(kwargs, heap);
        let ghost m = heap@;
        drop_values(positional, heap);
        proof {
            assert(crate::heap::pairs_dropped_from(old(heap)@, m, args.kwargs@, 0) && crate::heap::dropped_from(m, heap@, args.positional@, 0));
        }
        let mut m = str_to_string("sorted expected 1 argument, got ");
        push_u64(&mut m, n as u64);
        return Err(RunError { exc_type: ExcType::TypeError, message: m });
    }
    let mut positional = positional;
    let iterable = positional.pop().unwrap();
    let (key_arg, reverse_arg) = match parse_named_kwargs_pair(kwargs, "sorted", "sort", "key", "reverse", heap) {
        Ok(p) => p,
        Err(e) => {
            let ghost m = heap@;
            let ghost itv = iterable;
            iterable.drop_with_heap(heap);
            proof {
                crate::heap::lemma_released_one(m, heap@, itv);
                assert(args.positional@ =~= seq![itv]);
                assert(crate::heap::pairs_dropped_from(old(heap)@, m, args.kwargs@, 0) && crate::heap::dropped_from(m, heap@, args.positional@, 0));
            }
            return Err(e);
        },
    };
    let reverse = match &reverse_arg {
        Some(v) => py_bool(v, heap),
        None => false,
    };
    let key_fn = match key_arg {
        Some(Value::NoneValue) => None,
        other => other,
    };
    Ok((iterable, key_fn, reverse, reverse_arg))
}

/// `sorted(iterable, /, *, key=None, reverse=False)`: a new list of the iterable's
/// values in ascending order (descending with a true `reverse`); the sort is stable.
/// With a key function the call stops with the values so the caller can compute
/// their keys.
pub fn builtin_sorted(args: ArgValues, heap: &mut Heap) -> (r: Result<CallStep<SortedPending>, RunError>)
    requires
        old(heap).wf(),
    ensures
        final(heap).wf(),
        sorted_outcome(args.positional@, args.kwargs@, old(heap)@, r, final(heap)@),
{
    let (iterable, key_fn, reverse, reverse_arg) = parse_sorted_args(args, heap)?;
    let ghost h0 = heap@;
    match iterate(iterable, heap) {
        Err(e) => {
            drop_option(key_fn, heap);
            drop_option(reverse_arg, heap);
            Err(e)
        },
        Ok((it, items)) => {
            let ghost h1 = heap@;
            proof {
                assert(yields(iterable, h0, items@));
                lemma_all_comparable_agrees(items@, h0, h1);
            }
            match key_fn {
                Some(kf) => {
                    it.drop_with_heap(heap);
                    drop_option(reverse_arg, heap);
                    Ok(CallStep::NeedKeys(SortedPending { items, key_fn: kf, reverse }))
                },
                None => {
                    let ghost vals = items@;
                    let mut items = items;
                    match sort_values(&mut items, None, reverse, heap) {
                        Ok(()) => {
                            proof {
                                lemma_sorted_result_agrees(items@, vals, vals, reverse, h1, h0);
                            }
                            it.drop_with_heap(heap);
                            drop_option(reverse_arg, heap);
                            match heap.allocate(HeapData::List(items)) {
                                Ok(id) => Ok(CallStep::Done(Value::Ref(id))),
                                Err(e) => Err(e),
                            }
                        },
                        Err(e) => {
                            proof {
                                crate::heap::lemma_all_agree_sym(vals, h0, h1);
                                lemma_unordered_pair_error_agrees(vals, e, h1, h0);
                            }
                            drop_values(items, heap);
                            it.drop_with_heap(heap);
                            drop_option(reverse_arg, heap);
                            Err(e)
                        },
                    }
                },
            }
        },
    }
}

impl SortedPending {
    /// Finishes the call given the key of each value, in order: a new list of the
    /// values ordered by their keys. TypeError when two keys cannot be ordered. The
    /// keys and the key function are dropped.
    pub fn finish(self, keys: Vec<Value>, heap: &mut Heap) -> (r: Result<Value, RunError>)
        requires
            old(heap).wf(),
            keys@.len() == self.items@.len(),
        ensures
            final(heap).wf(),
            sorted_list_outcome(r, self.items@, keys@, self.reverse, old(heap)@, final(heap)@),
    {
        let SortedPending { items, key_fn, reverse } = self;
        let mut items = items;
        match sort_values(&mut items, Some(&keys), reverse, heap) {
            Ok(()) => {
                let ghost sorted = items@;
                assert(sorted_result(sorted, self.items@, keys@, reverse, old(heap)@));
                drop_values(keys, heap);
                key_fn.drop_with_heap(heap);
                match heap.allocate(HeapData::List(items)) {
                    Ok(id) => {
                        assert(heap@.data(id) == HeapData::List(items));
                        Ok(Value::Ref(id))
                    },
                    Err(e) => {
                        assert(heap@.slots.len() == old(heap)@.slots.len());
                        Err(e)
                    },
                }
            },
            Err(e) => {
                drop_values(keys, heap);
                key_fn.drop_with_heap(heap);
                drop_values(items, heap);
                Err(e)
            },
        }
    }
}

} // verus!
