//! The `map()` builtin.
//!
//! `map(function, iterable, *iterables)` applies the function to the first values of
//! all iterables, then to the second values, and so on, stopping when the shortest
//! iterable is exhausted, and gives a list of the results (not a lazy iterator).
//! Calling the function is the interpreter's job: [`builtin_map`] reads the
//! iterables and hands back the rows of arguments, and [`map_results`] turns the
//! function's results into the list.
use vstd::prelude::*;
use crate::exception::{ExcType, RunError, is_error, not_iterable_message};
use crate::heap::{Heap, HeapData, HeapView, only_frees};
use crate::text::{push_str, str_to_string};
use crate::iter::{iterate, iterable_spec, lemma_yields_after_frees, yields};
use crate::value::{ArgValues, Value, drop_pairs, drop_values, no_kwargs_message, py_type_spec, type_str_spec};

verus! {

/// `"map() must have at least two arguments."`.
pub open spec fn map_arity_message() -> Seq<char> {
    "map() must have at least two arguments."@
}

/// Whether `cols` are what the iterables among `args` (all but the first, the
/// function) yield, and `rows` their values row by row: row `i` holds the `i`-th
/// value of every iterable, with as many rows as the shortest iterable has values.
pub open spec fn map_columns(args: Seq<Value>, heap: HeapView, cols: Seq<Seq<Value>>, rows: Seq<Vec<Value>>) -> bool {
    &&& cols.len() == args.len() - 1
    &&& forall|k: int| 0 <= k < cols.len() ==> #[trigger] yields(args[k + 1], heap, cols[k]) && rows.len() <= cols[k].len()
    &&& exists|k: int| 0 <= k < cols.len() && rows.len() == #[trigger] cols[k].len()
    &&& forall|i: int, k: int| 0 <= i < rows.len() && 0 <= k < cols.len() ==> #[trigger] rows[i]@[k] == cols[k][i]
}

/// A `map()` call waiting for the function's result on each row of arguments: row
/// `i` holds the `i`-th value of every iterable, in argument order.
#[derive(Debug)]
pub struct MapPending {
    pub function: Value,
    pub rows: Vec<Vec<Value>>,
}

/// The first `n` values of each list, row by row (row `i` holds the `i`-th value of
/// every list), and the values past the first `n` of each list.
fn transpose_prefix(cols: Vec<Vec<Value>>, n: usize) -> (r: (Vec<Vec<Value>>, Vec<Value>))
    requires
        forall|k: int| 0 <= k < cols@.len() ==> n <= #[trigger] cols@[k]@.len(),
    ensures
        r.0@.len() == n,
        forall|i: int| 0 <= i < n ==> (#[trigger] r.0@[i])@.len() == cols@.len(),
        forall|i: int, k: int| 0 <= i < n && 0 <= k < cols@.len() ==> #[trigger] r.0@[i]@[k] == cols@[k]@[i],
{
    let mut rows: Vec<Vec<Value>> = Vec::new();
    let mut i: usize = 0;
    while i < n
        invariant
            i <= n,
            rows@.len() == i,
            forall|k: int| 0 <= k < cols@.len() ==> n <= #[trigger] cols@[k]@.len(),
            forall|j: int| 0 <= j < i ==> (#[trigger] rows@[j])@.len() == cols@.len(),
            forall|j: int, k: int| 0 <= j < i && 0 <= k < cols@.len() ==> #[trigger] rows@[j]@[k] == cols@[k]@[j],
        decreases n - i,
    {
        let mut row: Vec<Value> = Vec::new();
        let mut k: usize = 0;
        while k < cols.len()
            invariant
                i < n,
                k <= cols@.len(),
                row@.len() == k,
                forall|q: int| 0 <= q < cols@.len() ==> n <= #[trigger] cols@[q]@.len(),
                forall|q: int| 0 <= q < k ==> #[trigger] row@[q] == cols@[q]@[i as int],
            decreases cols@.len() - k,
        {
            row.push(cols[k][i].clone_bits());
            k = k + 1;
        }
        rows.push(row);
        proof {
            assert forall|j: int, q: int| 0 <= j < i + 1 && 0 <= q < cols@.len() implies #[trigger] rows@[j]@[q] == cols@[q]@[j] by {
                if j < i {
                } else {
                    assert(rows@[j] == row);
                }
            }
        }
        i = i + 1;
    }
    let mut extras: Vec<Value> = Vec::new();
    let mut k: usize = 0;
    while k < cols.len()
        invariant
            k <= cols@.len(),
            forall|q: int| 0 <= q < cols@.len() ==> n <= #[trigger] cols@[q]@.len(),
        decreases cols@.len() - k,
    {
        let mut j: usize = n;
        while j < cols[k].len()
            invariant
                k < cols@.len(),
                n <= j <= cols@[k as int]@.len(),
            decreases cols@[k as int]@.len() - j,
        {
            extras.push(cols[k][j].clone_bits());
            j = j + 1;
        }
        k = k + 1;
    }
    (rows, extras)
}

/// `map(function, iterable, *iterables)`: reads every iterable (in argument order)
/// and hands back the function with the rows of arguments to call it with, as many
/// rows as the shortest iterable has values. TypeError for keyword arguments, for
/// fewer than two arguments, or for an argument that is not iterable (then
/// everything is dropped).
pub fn builtin_map(args: ArgValues, heap: &mut Heap) -> (r: Result<MapPending, RunError>)
    requires
        old(heap).wf(),
    ensures
        final(heap).wf(),
        args.kwargs@.len() > 0 ==> (r matches Err(e) && is_error(e, ExcType::TypeError, no_kwargs_message("map"@))),
        args.kwargs@.len() == 0 && args.positional@.len() < 2 ==> (r matches Err(e) && is_error(e, ExcType::TypeError, map_arity_message())),
        args.kwargs@.len() == 0 && args.positional@.len() >= 2 && !iterable_spec(args.positional@[1], old(heap)@) ==>
            (r matches Err(e) && is_error(e, ExcType::TypeError, not_iterable_message(type_str_spec(py_type_spec(args.positional@[1], old(heap)@))))),
        r matches Err(e) ==> e.exc_type == ExcType::TypeError,
        r matches Ok(p) ==> {
            &&& args.kwargs@.len() == 0
            &&& args.positional@.len() >= 2
            &&& p.function == args.positional@[0]
            &&& forall|i: int| 0 <= i < p.rows@.len() ==> (#[trigger] p.rows@[i])@.len() == args.positional@.len() - 1
            &&& exists|cols: Seq<Seq<Value>>| #[trigger] map_columns(args.positional@, old(heap)@, cols, p.rows@)
        },
{
    let ArgValues { positional, kwargs } = args;
    if kwargs.len() > 0 {
        drop_pairs(kwargs, heap);
        drop_values(positional, heap);
        let mut m = str_to_string("map");
        push_str(&mut m, "() takes no keyword arguments");
        return Err(RunError { exc_type: ExcType::TypeError, message: m });
    }
    if positional.len() < 2 {
        drop_values(positional, heap);
        return Err(RunError::from_str(ExcType::TypeError, "map() must have at least two arguments."));
    }
    let ghost pos = positional@;
    let ghost h0 = heap@;
    let mut rest = positional;
    let function = rest.remove(0);
    let mut cols: Vec<Vec<Value>> = Vec::new();
    let mut iters: Vec<crate::iter::MontyIter> = Vec::new();
    let mut shortest: usize = 0;
    while rest.len() > 0
        invariant
            pos.len() >= 2,
            pos == args.positional@,
            args.kwargs@.len() == 0,
            h0 == old(heap)@,
            cols@.len() > 0 ==> iterable_spec(pos[1], h0),
            rest@.len() + cols@.len() == pos.len() - 1,
            rest@ == pos.skip(1 + cols@.len() as int),
            heap.wf(),
            cols@.len() == 0 ==> heap@ == h0,
            forall|k: int| 0 <= k < cols@.len() ==> shortest <= #[trigger] cols@[k]@.len(),
            function == pos[0],
            only_frees(h0, heap@),
            forall|k: int| 0 <= k < cols@.len() ==> #[trigger] yields(pos[k + 1], h0, cols@[k]@),
            cols@.len() > 0 ==> exists|k: int| 0 <= k < cols@.len() && shortest == #[trigger] cols@[k]@.len(),
        decreases rest@.len(),
    {
        let v = rest.remove(0);
        let k = cols.len();
        let ghost hk = heap@;
        let ghost cols0 = cols@;
        proof {
            assert(v == pos[k + 1]);
        }
        match iterate(v, heap) {
            Ok((it, items)) => {
                proof {
                    lemma_yields_after_frees(v, h0, hk, items@);
                    assert forall|j: crate::value::HeapId| #[trigger] heap@.live(j) implies h0.live(j) && heap@.data(j) == h0.data(j) by {
                        assert(hk.live(j));
                    }
                }
                if k == 0 || items.len() < shortest {
                    shortest = items.len();
                }
                iters.push(it);
                cols.push(items);
                proof {
                    assert forall|q: int| 0 <= q < cols@.len() implies #[trigger] yields(pos[q + 1], h0, cols@[q]@) by {
                        if q < k {
                            assert(cols@[q] == cols0[q]);
                        }
                    }
                    assert forall|q: int| 0 <= q < cols@.len() implies shortest <= #[trigger] cols@[q]@.len() by {
                        if q < k {
                            assert(cols@[q] == cols0[q]);
                        }
                    }
                    if shortest == items@.len() {
                        assert(shortest == cols@[k as int]@.len());
                    } else {
                        let q = choose|q: int| 0 <= q < cols0.len() && shortest == #[trigger] cols0[q]@.len();
                        assert(cols@[q] == cols0[q]);
                    }
                }
            },
            Err(e) => {
                proof {
                    if k == 0 {
                        assert(v == pos[1]);
                    }
                }
                function.drop_with_heap(heap);
                drop_values(rest, heap);
                let mut cols = cols;
                while cols.len() > 0
                    invariant
                        heap.wf(),
                    decreases cols@.len(),
                {
                    let c = cols.pop().unwrap();
                    drop_values(c, heap);
                }
                let mut iters = iters;
                while iters.len() > 0
                    invariant
                        heap.wf(),
                    decreases iters@.len(),
                {
                    let it = iters.pop().unwrap();
                    it.drop_with_heap(heap);
                }
                return Err(e);
            },
        }
    }
    let ghost colsq = Seq::new(cols@.len(), |k: int| cols@[k]@);
    let ghost cols_v = cols@;
    let (rows, extras) = transpose_prefix(cols, shortest);
    proof {
        assert(map_columns(pos, h0, colsq, rows@)) by {
            let q = choose|q: int| 0 <= q < cols_v.len() && shortest == #[trigger] cols_v[q]@.len();
            assert(rows@.len() == colsq[q].len());
            assert forall|i: int, k: int| 0 <= i < rows@.len() && 0 <= k < colsq.len() implies #[trigger] rows@[i]@[k] == colsq[k][i] by {
                assert(rows@[i]@[k] == cols_v[k]@[i]);
            }
        }
    }
    // The values past the shortest iterable are not used.
    drop_values(extras, heap);
    let mut iters = iters;
    while iters.len() > 0
        invariant
            heap.wf(),
        decreases iters@.len(),
    {
        let it = iters.pop().unwrap();
        it.drop_with_heap(heap);
    }
    let pending = MapPending { function, rows };
    proof {
        assert(map_columns(args.positional@, old(heap)@, colsq, pending.rows@));
    }
    Ok(pending)
}

/// Finishes a `map()` call given the function's result on each row: a new list of
/// the results, in order. The function is dropped. MemoryError when the heap is
/// full.
pub fn map_results(function: Value, results: Vec<Value>, heap: &mut Heap) -> (r: Result<Value, RunError>)
    requires
        old(heap).wf(),
    ensures
        final(heap).wf(),
        match r {
            Ok(v) => v matches Value::Ref(id) && final(heap)@.live(id) && final(heap)@.data(id) == HeapData::List(results),
            Err(e) => e.exc_type == ExcType::MemoryError && !crate::heap::has_room(old(heap)@),
        },
{
    function.drop_with_heap(heap);
    let id = heap.allocate(HeapData::List(results))?;
    Ok(Value::Ref(id))
}

impl MapPending {
    /// Finishes the call given the function's result on each row, in row order: a
    /// new list holding those results, so its `i`-th item is the function's result on
    /// the `i`-th values of the iterables. The function and the rows are dropped.
    /// MemoryError when the heap has no room for the list.
    pub fn finish(self, results: Vec<Value>, heap: &mut Heap) -> (r: Result<Value, RunError>)
        requires
            old(heap).wf(),
            results@.len() == self.rows@.len(),
        ensures
            final(heap).wf(),
            match r {
                Ok(v) => v matches Value::Ref(id) && final(heap)@.live(id) && final(heap)@.data(id) == HeapData::List(results)
                    && results@.len() == self.rows@.len(),
                Err(e) => e.exc_type == ExcType::MemoryError && !crate::heap::has_room(old(heap)@),
            },
    {
        let MapPending { function, rows } = self;
        let mut rows = rows;
        while rows.len() > 0
            invariant
                heap.wf(),
                crate::heap::room_kept(old(heap)@, heap@),
            decreases rows@.len(),
        {
            let row = rows.pop().unwrap();
            drop_values(row, heap);
        }
        let ghost h1 = heap@;
        let r = map_results(function, results, heap);
        proof {
            if r is Err {
                assert(!crate::heap::has_room(h1));
            }
        }
        r
    }
}

} // verus!
