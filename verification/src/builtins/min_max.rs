//! The `min()` and `max()` builtins.
//!
//! Both take either one iterable or two or more positional arguments, and the
//! keywords `key=` and `default=`. Ties keep the value seen first. A `key=` function
//! is user code: when one is given, the call stops with the candidate values so the
//! caller can compute their keys, and [`MinMaxPending::finish`] picks the winner.
use vstd::prelude::*;
use core::cmp::Ordering;
use crate::compare::{comparable, compare_spec, lemma_compare_agrees, lemma_compare_antisym, lemma_le_lt_trans, lemma_lt_le_trans, py_compare, val_gt, val_lt};
use crate::exception::{ExcType, RunError, at_least_message, is_error, not_iterable_message, type_error_at_least};
use crate::iter::MontyIter;
use crate::heap::{Heap, HeapView, all_agree};
use crate::iter::{iterable_spec, iterate, yields};
use crate::text::{push_str, str_to_string};
use crate::value::{ArgValues, Value, drop_option, drop_pairs, drop_values, kw_parse, parse_named_kwargs_pair, py_type, py_type_spec, type_str, type_str_spec};

verus! {

/// What a builtin that accepts a `key=` function returns: its result, or the values
/// whose keys the caller must compute (by calling the key function on each, in
/// order) before the call can finish.
#[derive(Debug)]
pub enum CallStep<P> {
    Done(Value),
    NeedKeys(P),
}

/// A `min()` or `max()` call waiting for the key function's result on each
/// candidate.
#[derive(Debug)]
pub struct MinMaxPending {
    pub candidates: Vec<Value>,
    pub key_fn: Value,
    pub is_min: bool,
}

/// The builtin's name.
pub open spec fn min_max_name(is_min: bool) -> Seq<char> {
    if is_min { "min"@ } else { "max"@ }
}

/// Whether a candidate that orders `o` against the current winner replaces it:
/// smaller for `min`, larger for `max`; equal values keep the current winner.
pub open spec fn wins(o: Ordering, is_min: bool) -> bool {
    (is_min && o is Less) || (!is_min && o is Greater)
}

/// The scan over the first `n` keys: the index of the winner, or the pair of
/// indices (candidate, current winner) whose comparison is not supported.
pub open spec fn select_scan(keys: Seq<Value>, n: int, is_min: bool, heap: HeapView) -> Result<int, (int, int)>
    decreases n,
{
    if n <= 1 {
        Ok(0)
    } else {
        match select_scan(keys, n - 1, is_min, heap) {
            Err(p) => Err(p),
            Ok(b) => match compare_spec(keys[n - 1], keys[b], heap) {
                None => Err((n - 1, b)),
                Some(o) => if wins(o, is_min) { Ok(n - 1) } else { Ok(b) },
            },
        }
    }
}

/// The scan over all keys.
pub open spec fn scan_all(keys: Seq<Value>, is_min: bool, heap: HeapView) -> Result<int, (int, int)> {
    select_scan(keys, keys.len() as int, is_min, heap)
}

/// The scan over the first `i` keys.
pub open spec fn scan_prefix(keys: Seq<Value>, i: usize, is_min: bool, heap: HeapView) -> Result<int, (int, int)> {
    select_scan(keys, i as int, is_min, heap)
}

/// `"'<' not supported between instances of '{left}' and '{right}'"`, with `>` for max.
pub open spec fn ord_message(is_min: bool, left: Seq<char>, right: Seq<char>) -> Seq<char> {
    "'"@ + (if is_min { "<"@ } else { ">"@ }) + "' not supported between instances of '"@ + left + "' and '"@ + right + "'"@
}

/// `"Cannot specify a default for {name}() with multiple positional arguments"`.
pub open spec fn default_multiple_message(name: Seq<char>) -> Seq<char> {
    "Cannot specify a default for "@ + name + "() with multiple positional arguments"@
}

/// `"{name}() iterable argument is empty"`.
pub open spec fn empty_iterable_message(name: Seq<char>) -> Seq<char> {
    name + "() iterable argument is empty"@
}

/// The name of a value's type.
pub open spec fn type_name_of(v: Value, heap: HeapView) -> Seq<char> {
    type_str_spec(py_type_spec(v, heap))
}

/// What a `min()` / `max()` call over the candidate values `items` returns.
pub open spec fn select_outcome(r: Result<CallStep<MinMaxPending>, RunError>, items: Seq<Value>, key: Option<Value>, default: Option<Value>, is_min: bool, heap: HeapView) -> bool {
    if items.len() == 0 {
        match default {
            Some(d) => r matches Ok(CallStep::Done(v)) && v == d,
            None => r matches Err(e) && is_error(e, ExcType::ValueError, empty_iterable_message(min_max_name(is_min))),
        }
    } else if key is Some {
        r matches Ok(CallStep::NeedKeys(p)) && p.candidates@ == items && p.key_fn == key.unwrap() && p.is_min == is_min
    } else {
        match select_scan(items, items.len() as int, is_min, heap) {
            Ok(b) => r matches Ok(CallStep::Done(v)) && v == items[b],
            Err((a, b)) => r matches Err(e) && is_error(e, ExcType::TypeError, ord_message(is_min, type_name_of(items[a], heap), type_name_of(items[b], heap))),
        }
    }
}

/// What `min(*positional, **kwargs)` (or `max`) returns, given the heap.
pub open spec fn min_max_outcome(positional: Seq<Value>, kwargs: Seq<(Value, Value)>, is_min: bool, heap: HeapView, r: Result<CallStep<MinMaxPending>, RunError>) -> bool {
    let name = min_max_name(is_min);
    if positional.len() == 0 {
        r matches Err(e) && is_error(e, ExcType::TypeError, at_least_message(name, 1, 0))
    } else {
        match kw_parse(kwargs, name, name, "key"@, "default"@) {
            Err(m) => r matches Err(e) && is_error(e, ExcType::TypeError, m),
            Ok((key0, default)) => {
                let key = if key0 matches Some(Value::NoneValue) { None } else { key0 };
                if positional.len() == 1 {
                    if !iterable_spec(positional[0], heap) {
                        r matches Err(e) && is_error(e, ExcType::TypeError, not_iterable_message(type_name_of(positional[0], heap)))
                    } else {
                        exists|items: Seq<Value>| #[trigger] yields(positional[0], heap, items) && select_outcome(r, items, key, default, is_min, heap)
                    }
                } else if default is Some {
                    r matches Err(e) && is_error(e, ExcType::TypeError, default_multiple_message(name))
                } else {
                    select_outcome(r, positional, key, default, is_min, heap)
                }
            },
        }
    }
}

/// The scan's winner is one of the scanned keys.
proof fn lemma_select_scan_bounds(keys: Seq<Value>, n: int, is_min: bool, heap: HeapView)
    requires
        n >= 1,
    ensures
        select_scan(keys, n, is_min, heap) matches Ok(b) ==> 0 <= b < n,
        select_scan(keys, n, is_min, heap) matches Err((a, b)) ==> 0 <= b < a < n,
    decreases n,
{
    if n > 1 {
        lemma_select_scan_bounds(keys, n - 1, is_min, heap);
    }
}

/// Whether key `x` is strictly better than key `y`: smaller for `min`, larger for `max`.
pub open spec fn strictly_better(x: Value, y: Value, is_min: bool, heap: HeapView) -> bool {
    if is_min { val_lt(x, y, heap) } else { val_gt(x, y, heap) }
}

/// The winner of the scan over the first `n` keys is strictly better than every
/// earlier key, and no later key is strictly better than it.
proof fn lemma_scan_extreme(keys: Seq<Value>, n: int, is_min: bool, heap: HeapView)
    requires
        1 <= n <= keys.len(),
        select_scan(keys, n, is_min, heap) is Ok,
    ensures
        ({
            let b = select_scan(keys, n, is_min, heap)->Ok_0;
            &&& 0 <= b < n
            &&& forall|j: int| 0 <= j < b ==> #[trigger] strictly_better(keys[b], keys[j], is_min, heap)
            &&& forall|j: int| b < j < n ==> comparable(keys[b], #[trigger] keys[j], heap)
                && !strictly_better(keys[j], keys[b], is_min, heap)
        }),
    decreases n,
{
    if n > 1 {
        lemma_scan_extreme(keys, n - 1, is_min, heap);
        let w = select_scan(keys, n - 1, is_min, heap)->Ok_0;
        let m = n - 1;
        let b = select_scan(keys, n, is_min, heap)->Ok_0;
        lemma_compare_antisym(keys[m], keys[w], heap);
        if b == m {
            assert forall|j: int| 0 <= j < b implies #[trigger] strictly_better(keys[b], keys[j], is_min, heap) by {
                if j != w {
                    if j < w {
                        assert(strictly_better(keys[w], keys[j], is_min, heap));
                    } else {
                        assert(comparable(keys[w], keys[j], heap) && !strictly_better(keys[j], keys[w], is_min, heap));
                    }
                    lemma_compare_antisym(keys[w], keys[j], heap);
                    lemma_compare_antisym(keys[m], keys[j], heap);
                    if is_min {
                        if j < w {
                            lemma_le_lt_trans(keys[m], keys[w], keys[j], heap);
                        } else {
                            lemma_lt_le_trans(keys[m], keys[w], keys[j], heap);
                        }
                    } else {
                        lemma_le_lt_trans(keys[j], keys[w], keys[m], heap);
                    }
                }
            }
        } else {
            assert(b == w);
            assert forall|j: int| b < j < n implies comparable(keys[b], #[trigger] keys[j], heap)
                && !strictly_better(keys[j], keys[b], is_min, heap) by {
                if j == m {
                    lemma_compare_antisym(keys[w], keys[m], heap);
                }
            }
        }
    }
}

/// `min()` and `max()` pick the first extreme key: the chosen key is strictly better
/// than every key before it (so an earlier equal key would have been kept) and no key
/// after it is strictly better (smaller for `min`, larger for `max`).
pub proof fn law_extreme_is_first_best(keys: Seq<Value>, is_min: bool, heap: HeapView)
    requires
        keys.len() >= 1,
        scan_all(keys, is_min, heap) is Ok,
    ensures
        ({
            let b = scan_all(keys, is_min, heap)->Ok_0;
            &&& 0 <= b < keys.len()
            &&& forall|j: int| 0 <= j < b ==> #[trigger] strictly_better(keys[b], keys[j], is_min, heap)
            &&& forall|j: int| b < j < keys.len() ==> comparable(keys[b], #[trigger] keys[j], heap)
                && !strictly_better(keys[j], keys[b], is_min, heap)
        }),
{
    lemma_scan_extreme(keys, keys.len() as int, is_min, heap);
}

/// The scan gives the same answer in two heaps that agree on every key.
proof fn lemma_select_scan_agrees(keys: Seq<Value>, n: int, is_min: bool, a: HeapView, b: HeapView)
    requires
        1 <= n <= keys.len(),
        all_agree(keys, a, b),
    ensures
        select_scan(keys, n, is_min, a) == select_scan(keys, n, is_min, b),
    decreases n,
{
    if n > 1 {
        lemma_select_scan_agrees(keys, n - 1, is_min, a, b);
        lemma_select_scan_bounds(keys, n - 1, is_min, a);
        if let Ok(w) = select_scan(keys, n - 1, is_min, a) {
            lemma_compare_agrees(keys[n - 1], keys[w], a, b);
        }
    }
}

/// TypeError for ordering two values whose types do not support it.
fn ord_not_supported(left: &Value, right: &Value, is_min: bool, heap: &Heap) -> (r: RunError)
    ensures
        is_error(r, ExcType::TypeError, ord_message(is_min, type_name_of(*left, heap@), type_name_of(*right, heap@))),
{
    let mut m = str_to_string("'");
    push_str(&mut m, if is_min { "<" } else { ">" });
    push_str(&mut m, "' not supported between instances of '");
    push_str(&mut m, type_str(py_type(left, heap)));
    push_str(&mut m, "' and '");
    push_str(&mut m, type_str(py_type(right, heap)));
    push_str(&mut m, "'");
    RunError { exc_type: ExcType::TypeError, message: m }
}

/// The index of the smallest (or largest) key, the first one among equals.
fn select_extreme(keys: &Vec<Value>, is_min: bool, heap: &Heap) -> (r: Result<usize, RunError>)
    requires
        keys@.len() >= 1,
    ensures
        match scan_all(keys@, is_min, heap@) {
            Ok(b) => r matches Ok(i) && i == b,
            Err((a, b)) => r matches Err(e) && is_error(e, ExcType::TypeError, ord_message(is_min, type_name_of(keys@[a], heap@), type_name_of(keys@[b], heap@))),
        },
{
    let mut best: usize = 0;
    let mut i: usize = 1;
    while i < keys.len()
        invariant
            1 <= i <= keys@.len(),
            best < i,
            scan_prefix(keys@, i, is_min, heap@) matches Ok(b) && b == best,
        decreases keys@.len() - i,
    {
        let c = py_compare(&keys[i], &keys[best], heap);
        match c {
            None => {
                let e = ord_not_supported(&keys[i], &keys[best], is_min, heap);
                proof {
                    lemma_select_scan_err_sticky(keys@, i + 1, is_min, heap@);
                }
                return Err(e);
            },
            Some(o) => {
                let w = match o {
                    Ordering::Less => is_min,
                    Ordering::Greater => !is_min,
                    Ordering::Equal => false,
                };
                if w {
                    best = i;
                }
            },
        }
        i = i + 1;
    }
    Ok(best)
}

/// Once the scan fails on a prefix, it fails the same way on every longer prefix.
proof fn lemma_select_scan_err_sticky(keys: Seq<Value>, n: int, is_min: bool, heap: HeapView)
    requires
        1 <= n <= keys.len(),
        select_scan(keys, n, is_min, heap) is Err,
    ensures
        select_scan(keys, keys.len() as int, is_min, heap) == select_scan(keys, n, is_min, heap),
    decreases keys.len() - n,
{
    if n < keys.len() {
        lemma_select_scan_err_sticky(keys, n + 1, is_min, heap);
    }
}

/// What a `min()` / `max()` call returns is the same in two heaps that agree on
/// every candidate.
proof fn lemma_select_outcome_agrees(r: Result<CallStep<MinMaxPending>, RunError>, items: Seq<Value>, key: Option<Value>, default: Option<Value>, is_min: bool, a: HeapView, b: HeapView)
    requires
        all_agree(items, a, b),
    ensures
        select_outcome(r, items, key, default, is_min, a) == select_outcome(r, items, key, default, is_min, b),
{
    if items.len() > 0 {
        lemma_select_scan_agrees(items, items.len() as int, is_min, a, b);
        lemma_select_scan_bounds(items, items.len() as int, is_min, a);
        if let Err((i, j)) = select_scan(items, items.len() as int, is_min, a) {
            lemma_compare_agrees(items[i], items[j], a, b);
        }
    }
}

/// Removes and returns the value at `index`, dropping all the others.
fn take_one(values: Vec<Value>, index: usize, heap: &mut Heap) -> (r: Value)
    requires
        old(heap).wf(),
        index < values@.len(),
    ensures
        final(heap).wf(),
        r == values@[index as int],
{
    let mut values = values;
    let v = values.remove(index);
    drop_values(values, heap);
    v
}

/// Finishes a call over the candidate values `items`: the default or ValueError when
/// there are none, the pending call when there is a key function, else the winner.
/// The iterator the values came from, if any, is dropped at the end.
fn finish_candidates(it: Option<MontyIter>, items: Vec<Value>, key: Option<Value>, default: Option<Value>, is_min: bool, heap: &mut Heap) -> (r: Result<CallStep<MinMaxPending>, RunError>)
    requires
        old(heap).wf(),
    ensures
        final(heap).wf(),
        select_outcome(r, items@, key, default, is_min, old(heap)@),
{
    let r = if items.len() == 0 {
        drop_option(key, heap);
        match default {
            Some(d) => Ok(CallStep::Done(d)),
            None => {
                let mut m = str_to_string(if is_min { "min" } else { "max" });
                push_str(&mut m, "() iterable argument is empty");
                Err(RunError { exc_type: ExcType::ValueError, message: m })
            },
        }
    } else {
        match key {
            Some(kf) => {
                drop_option(default, heap);
                Ok(CallStep::NeedKeys(MinMaxPending { candidates: items, key_fn: kf, is_min }))
            },
            None => {
                proof {
                    lemma_select_scan_bounds(items@, items@.len() as int, is_min, old(heap)@);
                }
                let sel = select_extreme(&items, is_min, heap);
                drop_option(default, heap);
                match sel {
                    Ok(i) => Ok(CallStep::Done(take_one(items, i, heap))),
                    Err(e) => {
                        drop_values(items, heap);
                        Err(e)
                    },
                }
            },
        }
    };
    if let Some(it) = it {
        it.drop_with_heap(heap);
    }
    r
}

fn builtin_min_max(args: ArgValues, is_min: bool, heap: &mut Heap) -> (r: Result<CallStep<MinMaxPending>, RunError>)
    requires
        old(heap).wf(),
    ensures
        final(heap).wf(),
        min_max_outcome(args.positional@, args.kwargs@, is_min, old(heap)@, r),
{
    let name = if is_min { "min" } else { "max" };
    let ArgValues { positional, kwargs } = args;
    if positional.len() == 0 {
        drop_pairs(kwargs, heap);
        return Err(type_error_at_least(name, 1, 0));
    }
    let (key0, default) = match parse_named_kwargs_pair(kwargs, name, name, "key", "default", heap) {
        Ok(p) => p,
        Err(e) => {
            drop_values(positional, heap);
            return Err(e);
        },
    };
    let key = match key0 {
        Some(Value::NoneValue) => None,
        other => other,
    };
    let ghost h0 = heap@;
    if positional.len() == 1 {
        let mut positional = positional;
        let first = positional.pop().unwrap();
        match iterate(first, heap) {
            Ok((it, items)) => {
                let ghost h1 = heap@;
                let r = finish_candidates(Some(it), items, key, default, is_min, heap);
                proof {
                    lemma_select_outcome_agrees(r, items@, key, default, is_min, h0, h1);
                    assert(yields(first, h0, items@));
                }
                r
            },
            Err(e) => {
                drop_option(key, heap);
                drop_option(default, heap);
                Err(e)
            },
        }
    } else if default.is_some() {
        drop_option(key, heap);
        drop_option(default, heap);
        drop_values(positional, heap);
        let mut m = str_to_string("Cannot specify a default for ");
        push_str(&mut m, name);
        push_str(&mut m, "() with multiple positional arguments");
        Err(RunError { exc_type: ExcType::TypeError, message: m })
    } else {
        finish_candidates(None, positional, key, default, is_min, heap)
    }
}

/// `min(...)`: the smallest of the positional arguments, or of the values of a single
/// iterable argument; the first among equals. With `key=`, the call stops with the
/// candidates so the caller can compute their keys.
pub fn builtin_min(args: ArgValues, heap: &mut Heap) -> (r: Result<CallStep<MinMaxPending>, RunError>)
    requires
        old(heap).wf(),
    ensures
        final(heap).wf(),
        min_max_outcome(args.positional@, args.kwargs@, true, old(heap)@, r),
{
    builtin_min_max(args, true, heap)
}

/// `max(...)`: the largest of the positional arguments, or of the values of a single
/// iterable argument; the first among equals. With `key=`, the call stops with the
/// candidates so the caller can compute their keys.
pub fn builtin_max(args: ArgValues, heap: &mut Heap) -> (r: Result<CallStep<MinMaxPending>, RunError>)
    requires
        old(heap).wf(),
    ensures
        final(heap).wf(),
        min_max_outcome(args.positional@, args.kwargs@, false, old(heap)@, r),
{
    builtin_min_max(args, false, heap)
}

impl MinMaxPending {
    /// One step of the selection, taken as soon as the key of the next candidate is
    /// known (`keys` holds the keys so far, the new one last): given the winner
    /// `best` among the earlier keys, compares the new key with the winner's and gives
    /// the new winner, or TypeError when the two cannot be ordered. A caller that
    /// takes this step after each key reports an unordered pair before it computes
    /// any later key.
    pub fn scan_step(&self, keys: &Vec<Value>, best: usize, heap: &Heap) -> (r: Result<usize, RunError>)
        requires
            keys@.len() >= 2,
            select_scan(keys@, keys@.len() - 1, self.is_min, heap@) matches Ok(b) && b == best,
        ensures
            match scan_all(keys@, self.is_min, heap@) {
                Ok(b) => r matches Ok(i) && i == b,
                Err((a, b)) => r matches Err(e) && is_error(e, ExcType::TypeError, ord_message(self.is_min, type_name_of(keys@[a], heap@), type_name_of(keys@[b], heap@))),
            },
    {
        proof {
            lemma_select_scan_bounds(keys@, keys@.len() - 1, self.is_min, heap@);
        }
        let i = keys.len() - 1;
        let c = py_compare(&keys[i], &keys[best], heap);
        match c {
            None => Err(ord_not_supported(&keys[i], &keys[best], self.is_min, heap)),
            Some(o) => {
                let w = match o {
                    Ordering::Less => self.is_min,
                    Ordering::Greater => !self.is_min,
                    Ordering::Equal => false,
                };
                if w {
                    Ok(i)
                } else {
                    Ok(best)
                }
            },
        }
    }

    /// Finishes the call given the key of each candidate, in order: the candidate
    /// with the smallest (or largest) key, the first among equals. TypeError when two
    /// keys cannot be ordered. The keys and the key function are dropped.
    pub fn finish(self, keys: Vec<Value>, heap: &mut Heap) -> (r: Result<Value, RunError>)
        requires
            old(heap).wf(),
            self.candidates@.len() >= 1,
            keys@.len() == self.candidates@.len(),
        ensures
            final(heap).wf(),
            match scan_all(keys@, self.is_min, old(heap)@) {
                Ok(b) => r matches Ok(v) && v == self.candidates@[b],
                Err((a, b)) => r matches Err(e) && is_error(e, ExcType::TypeError, ord_message(self.is_min, type_name_of(keys@[a], old(heap)@), type_name_of(keys@[b], old(heap)@))),
            },
    {
        let MinMaxPending { candidates, key_fn, is_min } = self;
        proof {
            lemma_select_scan_bounds(keys@, keys@.len() as int, is_min, old(heap)@);
        }
        let sel = select_extreme(&keys, is_min, heap);
        drop_values(keys, heap);
        key_fn.drop_with_heap(heap);
        match sel {
            Ok(i) => Ok(take_one(candidates, i, heap)),
            Err(e) => {
                drop_values(candidates, heap);
                Err(e)
            },
        }
    }
}

} // verus!
