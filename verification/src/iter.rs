//! Iterators for Python `for` loops and the `iter()` / `next()` builtins.
//!
//! An iterator keeps an index plus per-type iteration data. Ranges and strings are
//! copied into the iterator when it is created; containers on the heap are read by
//! index on every step, so a list that grows or shrinks during iteration is seen as
//! it is, while a dict or set whose size changes raises RuntimeError.
use vstd::prelude::*;
use crate::exception::{ExcType, RunError, at_least_message, at_most_message, is_error, not_iterable_message, type_error_not_iterable};
use crate::heap::{Heap, HeapData, HeapView, same_objects, value_released};
use crate::range::Range;
use crate::text::{push_char, push_str, str_to_string};
use crate::value::{ArgValues, HeapId, Value, no_kwargs_message, py_type, py_type_spec, type_str, type_str_spec};
use vstd::string::StrSliceExecFns;

verus! {

/// Type-specific iteration data.
#[derive(Debug)]
pub enum IterValue {
    /// A range: the next value to yield, the step, and the total number of values.
    Range { next: i64, step: i64, len: usize },
    /// A string: its characters.
    IterStr { chars: Vec<char> },
    /// A container on the heap. `len` is `None` for lists (whose length is read on
    /// every step) and the length captured at creation for other containers;
    /// `checks_mutation` is set for dicts and sets, which must not change size.
    HeapRef { heap_id: HeapId, len: Option<usize>, checks_mutation: bool },
}

/// Iteration state: the number of values yielded so far, the iteration data, and the
/// value being iterated (kept alive while iterating a heap container).
#[derive(Debug)]
pub struct MontyIter {
    index: usize,
    iter_value: IterValue,
    value: Value,
}

/// The number of elements of a container, for the containers an iterator can walk.
pub open spec fn container_len(d: HeapData) -> int {
    match d {
        HeapData::List(v) | HeapData::Tuple(v) | HeapData::PySet(v) | HeapData::FrozenSet(v) => v@.len() as int,
        HeapData::Dict(p) => p@.len() as int,
        HeapData::Bytes(b) => b@.len() as int,
        _ => 0,
    }
}

/// Whether a container is walked by index (lists, tuples, dicts, sets, frozensets, bytes).
pub open spec fn is_indexed_container(d: HeapData) -> bool {
    d is List || d is Tuple || d is Dict || d is PySet || d is FrozenSet || d is Bytes
}

/// The value at position `i` of a container: the element, the key for dicts, and the
/// byte as an int for bytes.
pub open spec fn container_item(d: HeapData, i: int) -> Value {
    match d {
        HeapData::List(v) | HeapData::Tuple(v) | HeapData::PySet(v) | HeapData::FrozenSet(v) => v@[i],
        HeapData::Dict(p) => p@[i].0,
        HeapData::Bytes(b) => Value::Int(b@[i] as i64),
        _ => Value::NoneValue,
    }
}

/// The message for a dict or set that changed size while being iterated.
pub open spec fn changed_size_message(d: HeapData) -> Seq<char> {
    if d is Dict {
        "dictionary changed size during iteration"@
    } else {
        "Set changed size during iteration"@
    }
}

impl MontyIter {
    /// The number of values yielded so far.
    pub closed spec fn index_spec(&self) -> usize {
        self.index
    }

    /// The iteration data.
    pub closed spec fn data_spec(&self) -> IterValue {
        self.iter_value
    }

    /// The value being iterated.
    pub closed spec fn value_spec(&self) -> Value {
        self.value
    }

    /// The number of values left to yield, when that is fixed.
    pub open spec fn remaining(&self, heap: HeapView) -> int {
        match self.data_spec() {
            IterValue::Range { len, .. } => len - self.index_spec(),
            IterValue::IterStr { chars } => chars@.len() - self.index_spec(),
            IterValue::HeapRef { heap_id, len, .. } => match len {
                Some(l) => l - self.index_spec(),
                None => container_len(heap.data(heap_id)) - self.index_spec(),
            },
        }
    }

    /// Whether the iteration data is consistent with the heap: a range iterator's
    /// remaining values all fit in `i64`, a string iterator has not run past the end,
    /// and a container iterator points at a live container of a walkable kind.
    pub open spec fn ok(&self, heap: HeapView) -> bool {
        match self.data_spec() {
            IterValue::Range { next, step, len } => self.index_spec() <= len && forall|k: int|
                0 <= k < len - self.index_spec() ==> i64::MIN <= #[trigger] (next + k * step) <= i64::MAX,
            IterValue::IterStr { chars } => self.index_spec() <= chars@.len(),
            IterValue::HeapRef { heap_id, len, checks_mutation } => {
                &&& heap.live(heap_id)
                &&& is_indexed_container(heap.data(heap_id))
                &&& (len is None) == (heap.data(heap_id) is List)
                &&& checks_mutation == (heap.data(heap_id) is Dict || heap.data(heap_id) is PySet)
                &&& (len matches Some(l) ==> self.index_spec() <= l)
                &&& (!checks_mutation ==> (len matches Some(l) ==> l == container_len(heap.data(heap_id))))
            },
        }
    }

    /// The value being iterated.
    pub fn value(&self) -> (r: &Value)
        ensures
            *r == self.value_spec(),
    {
        &self.value
    }

    /// Whether the iterator holds a heap reference.
    pub fn has_refs(&self) -> (r: bool)
        ensures
            r == (self.value_spec() is Ref),
    {
        match self.value {
            Value::Ref(_) => true,
            _ => false,
        }
    }

    /// Appends the heap id the iterator holds, if any, to `stack`.
    pub fn py_dec_ref_ids(&self, stack: &mut Vec<HeapId>)
        ensures
            final(stack)@ == old(stack)@ + crate::heap::value_ref_id(self.value_spec()),
    {
        crate::heap::collect_value_ref_id(&self.value, stack);
    }

    /// Drops the iterator, releasing the value it holds.
    pub fn drop_with_heap(self, heap: &mut Heap)
        requires
            old(heap).wf(),
        ensures
            final(heap).wf(),
            final(heap)@.slots.len() == old(heap)@.slots.len(),
            !(self.value_spec() is Ref) ==> final(heap)@ == old(heap)@,
            crate::heap::value_released(old(heap)@, final(heap)@, self.value_spec()),
    {
        self.value.drop_with_heap(heap);
    }
}

/// Iteration data for a range: its values from the start, with the saturated length.
pub fn iter_value_from_range(r: &Range) -> (v: IterValue)
    requires
        r.step != 0,
    ensures
        v == (IterValue::Range { next: r.start, step: r.step, len: crate::range::sat_len(r.len_spec()) as usize }),
{
    IterValue::Range { next: r.start, step: r.step, len: r.len() }
}

/// The characters of a string.
fn chars_of(s: &String) -> (r: Vec<char>)
    ensures
        r@ == s@,
{
    let t = s.as_str();
    let n = t.unicode_len();
    let mut v: Vec<char> = Vec::new();
    let mut i: usize = 0;
    while i < n
        invariant
            n == s@.len(),
            t@ == s@,
            i <= n,
            v@ == s@.subrange(0, i as int),
        decreases n - i,
    {
        v.push(t.get_char(i));
        i = i + 1;
    }
    assert(s@.subrange(0, n as int) == s@);
    v
}

/// The iteration data for a value, if the value is iterable: strings, ranges, and
/// lists, tuples, dicts, sets, frozensets and bytes on the heap.
pub open spec fn iterable_spec(v: Value, heap: HeapView) -> bool {
    match v {
        Value::Str(_) => true,
        Value::Ref(id) => heap.live(id) && (is_indexed_container(heap.data(id)) || (heap.data(id) matches HeapData::Range(rg) && rg.step != 0)),
        _ => false,
    }
}

/// The iteration data for an iterable value.
fn iter_value_new(v: &Value, heap: &Heap) -> (r: Option<IterValue>)
    ensures
        (r is Some) == iterable_spec(*v, heap@),
        r matches Some(it) ==> match it {
            IterValue::Range { next, step, len } => (*v matches Value::Ref(id) && heap@.data(id) matches HeapData::Range(rg)
                && next == rg.start && step == rg.step && len == crate::range::sat_len(rg.len_spec())),
            IterValue::IterStr { chars } => (*v matches Value::Str(s) && chars@ == s@),
            IterValue::HeapRef { heap_id, len, checks_mutation } => {
                &&& *v == Value::Ref(heap_id)
                &&& is_indexed_container(heap@.data(heap_id))
                &&& (len is None) == (heap@.data(heap_id) is List)
                &&& checks_mutation == (heap@.data(heap_id) is Dict || heap@.data(heap_id) is PySet)
                &&& (len matches Some(l) ==> l == container_len(heap@.data(heap_id)))
            },
        },
{
    match v {
        Value::Str(s) => Some(IterValue::IterStr { chars: chars_of(s) }),
        Value::Ref(id) => {
            if !heap.is_live(*id) {
                return None;
            }
            match heap.get(*id) {
                HeapData::List(_) => Some(IterValue::HeapRef { heap_id: *id, len: None, checks_mutation: false }),
                HeapData::Tuple(t) => Some(IterValue::HeapRef { heap_id: *id, len: Some(t.len()), checks_mutation: false }),
                HeapData::FrozenSet(t) => Some(IterValue::HeapRef { heap_id: *id, len: Some(t.len()), checks_mutation: false }),
                HeapData::Bytes(b) => Some(IterValue::HeapRef { heap_id: *id, len: Some(b.len()), checks_mutation: false }),
                HeapData::Dict(d) => Some(IterValue::HeapRef { heap_id: *id, len: Some(d.len()), checks_mutation: true }),
                HeapData::PySet(t) => Some(IterValue::HeapRef { heap_id: *id, len: Some(t.len()), checks_mutation: true }),
                HeapData::Range(r) => {
                    if r.step == 0 {
                        return None;
                    }
                    Some(iter_value_from_range(r))
                },
                _ => None,
            }
        },
        _ => None,
    }
}

/// A one-character string.
fn char_string(c: char) -> (r: String)
    ensures
        r@ == seq![c],
{
    let mut s = String::new();
    push_char(&mut s, c);
    s
}

/// The value at position `index` of a walkable container, copied without touching
/// reference counts.
fn container_item_bits(d: &HeapData, index: usize) -> (r: Value)
    requires
        is_indexed_container(*d),
        index < container_len(*d),
    ensures
        r == container_item(*d, index as int),
{
    match d {
        HeapData::List(v) | HeapData::Tuple(v) | HeapData::PySet(v) | HeapData::FrozenSet(v) => v[index].clone_bits(),
        HeapData::Dict(p) => p[index].0.clone_bits(),
        HeapData::Bytes(b) => Value::Int(b[index] as i64),
        _ => Value::NoneValue,
    }
}

/// The number of elements of a walkable container.
fn container_length(d: &HeapData) -> (r: usize)
    ensures
        r == container_len(*d),
{
    match d {
        HeapData::List(v) | HeapData::Tuple(v) | HeapData::PySet(v) | HeapData::FrozenSet(v) => v.len(),
        HeapData::Dict(p) => p.len(),
        HeapData::Bytes(b) => b.len(),
        _ => 0,
    }
}

/// Whether a container can be walked by index.
fn indexed_container(d: &HeapData) -> (r: bool)
    ensures
        r == is_indexed_container(*d),
{
    match d {
        HeapData::List(_) | HeapData::Tuple(_) | HeapData::Dict(_) | HeapData::PySet(_) | HeapData::FrozenSet(_) | HeapData::Bytes(_) => true,
        _ => false,
    }
}

/// What one step of iteration produces from a given state: the result and the
/// number of values yielded afterwards (the new index).
pub open spec fn step_result(it: IterValue, index: usize, heap: HeapView, r: Result<Option<Value>, RunError>) -> bool {
    match it {
        IterValue::Range { next, step, len } => if index < len {
            r == Ok::<Option<Value>, RunError>(Some(Value::Int(next)))
        } else {
            r == Ok::<Option<Value>, RunError>(None)
        },
        IterValue::IterStr { chars } => if index < chars@.len() {
            r matches Ok(Some(Value::Str(s))) && s@ == seq![chars@[index as int]]
        } else {
            r == Ok::<Option<Value>, RunError>(None)
        },
        IterValue::HeapRef { heap_id, len, checks_mutation } => {
            let d = heap.data(heap_id);
            if !heap.live(heap_id) || !is_indexed_container(d) {
                r == Ok::<Option<Value>, RunError>(None)
            } else if len matches Some(l) && index >= l {
                r == Ok::<Option<Value>, RunError>(None)
            } else if checks_mutation && (len matches Some(l) && container_len(d) != l) {
                r matches Err(e) && is_error(e, ExcType::RuntimeError, changed_size_message(d))
            } else if index >= container_len(d) {
                r == Ok::<Option<Value>, RunError>(None)
            } else {
                r == Ok::<Option<Value>, RunError>(Some(container_item(d, index as int)))
            }
        },
    }
}

/// How an iterator's data moves on with one step that gave `r`: a range's next
/// value moves on by the step (when that fits an `i64`) exactly when a value was
/// yielded; the characters of a string and what a heap iterator walks stay as they
/// were.
pub open spec fn stepped_data(d0: IterValue, d1: IterValue, r: Result<Option<Value>, RunError>) -> bool {
    match (d0, d1) {
        (IterValue::Range { next, step, len }, IterValue::Range { next: n2, step: s2, len: l2 }) =>
            s2 == step && l2 == len && (r matches Ok(Some(_)) ==> (next + step <= i64::MAX && next + step >= i64::MIN ==> n2 == next + step))
                && (!(r matches Ok(Some(_))) ==> n2 == next),
        (IterValue::IterStr { chars }, IterValue::IterStr { chars: c2 }) => c2@ == chars@,
        (IterValue::HeapRef { heap_id, len, checks_mutation }, IterValue::HeapRef { heap_id: h2, len: l2, checks_mutation: c2 }) =>
            h2 == heap_id && l2 == len && c2 == checks_mutation,
        _ => false,
    }
}

impl MontyIter {
    /// An iterator over `value`, which must be iterable. Ranges and strings are copied
    /// into the iterator and the value is released; containers are kept referenced.
    /// TypeError when the value is not iterable (the value is released).
    pub fn new(value: Value, heap: &mut Heap) -> (r: Result<MontyIter, RunError>)
        requires
            old(heap).wf(),
        ensures
            final(heap).wf(),
            final(heap)@.slots.len() == old(heap)@.slots.len(),
            crate::heap::only_frees(old(heap)@, final(heap)@),
            (r is Ok) == iterable_spec(value, old(heap)@),
            r matches Err(e) ==> is_error(e, ExcType::TypeError, not_iterable_message(type_str_spec(py_type_spec(value, old(heap)@)))),
            r is Err ==> crate::heap::value_released(old(heap)@, final(heap)@, value),
            r matches Ok(it) ==> {
                &&& it.index_spec() == 0
                &&& it.ok(final(heap)@)
                &&& match it.data_spec() {
                    IterValue::Range { next, step, len } => (value matches Value::Ref(id) && old(heap)@.data(id) matches HeapData::Range(rg)
                        && next == rg.start && step == rg.step && len == crate::range::sat_len(rg.len_spec())
                        && it.value_spec() == Value::NoneValue && crate::heap::value_released(old(heap)@, final(heap)@, value)),
                    IterValue::IterStr { chars } => (value matches Value::Str(s) && chars@ == s@
                        && it.value_spec() == Value::NoneValue && final(heap)@ == old(heap)@),
                    IterValue::HeapRef { heap_id, len, .. } => value == Value::Ref(heap_id) && final(heap)@ == old(heap)@
                        && it.value_spec() == value
                        && (len matches Some(l) ==> l == container_len(old(heap)@.data(heap_id))),
                }
            },
    {
        match iter_value_new(&value, heap) {
            Some(iv) => {
                let is_copy = match iv {
                    IterValue::Range { .. } | IterValue::IterStr { .. } => true,
                    IterValue::HeapRef { .. } => false,
                };
                proof {
                    if let IterValue::Range { next, step, len } = iv {
                        if let Value::Ref(id) = value {
                            if let HeapData::Range(rg) = heap@.data(id) {
                                assert forall|k: int| 0 <= k < len implies i64::MIN <= #[trigger] (next + k * step) <= i64::MAX by {
                                    crate::range::lemma_element_in_bounds(rg, k);
                                }
                            }
                        }
                    }
                }
                if is_copy {
                    value.drop_with_heap(heap);
                    Ok(MontyIter { index: 0, iter_value: iv, value: Value::NoneValue })
                } else {
                    Ok(MontyIter { index: 0, iter_value: iv, value })
                }
            },
            None => {
                let err = type_error_not_iterable(type_str(py_type(&value, heap)));
                value.drop_with_heap(heap);
                Err(err)
            },
        }
    }

    /// Yields the next value, or `None` when the iterator is exhausted. RuntimeError
    /// when a dict or set being iterated has changed size.
    pub fn for_next(&mut self, heap: &mut Heap) -> (r: Result<Option<Value>, RunError>)
        requires
            old(heap).wf(),
        ensures
            final(heap).wf(),
            same_objects(old(heap)@, final(heap)@),
            step_result(old(self).data_spec(), old(self).index_spec(), old(heap)@, r),
            final(self).value_spec() == old(self).value_spec(),
            r matches Ok(Some(_)) ==> final(self).index_spec() == old(self).index_spec() + 1,
            !(r matches Ok(Some(_))) ==> final(self).index_spec() == old(self).index_spec(),
            stepped_data(old(self).data_spec(), final(self).data_spec(), r),
            old(self).ok(old(heap)@) ==> final(self).ok(final(heap)@),
    {
        match &mut self.iter_value {
            IterValue::Range { next, step, len } => {
                if self.index >= *len {
                    return Ok(None);
                }
                let v = *next;
                *next = wrapping_add_i64(v, *step);
                self.index = self.index + 1;
                proof {
                    let old_next = v;
                    let st = *step;
                    if old(self).ok(old(heap)@) && self.index < *len {
                        assert(i64::MIN <= old_next + 1 * st <= i64::MAX);
                    }
                    if old(self).ok(old(heap)@) {
                        assert forall|k: int| 0 <= k < *len - self.index implies i64::MIN <= #[trigger] (*next + k * st) <= i64::MAX by {
                            assert(i64::MIN <= old_next + 1 * st <= i64::MAX);
                            assert(old_next + (k + 1) * st == *next + k * st) by (nonlinear_arith)
                                requires
                                    old_next + st == *next,
                            ;
                            assert(i64::MIN <= old_next + (k + 1) * st <= i64::MAX);
                        }
                    }
                }
                Ok(Some(Value::Int(v)))
            },
            IterValue::IterStr { chars } => {
                if self.index >= chars.len() {
                    return Ok(None);
                }
                let c = chars[self.index];
                self.index = self.index + 1;
                Ok(Some(Value::Str(char_string(c))))
            },
            IterValue::HeapRef { heap_id, len, checks_mutation } => {
                let id = *heap_id;
                if !heap.is_live(id) || !indexed_container(heap.get(id)) {
                    return Ok(None);
                }
                if let Some(l) = len {
                    if self.index >= *l {
                        return Ok(None);
                    }
                }
                let clen = container_length(heap.get(id));
                if *checks_mutation {
                    if let Some(l) = len {
                        if clen != *l {
                            let is_dict = match heap.get(id) {
                                HeapData::Dict(_) => true,
                                _ => false,
                            };
                            if is_dict {
                                return Err(RunError::from_str(ExcType::RuntimeError, "dictionary changed size during iteration"));
                            } else {
                                return Err(RunError::from_str(ExcType::RuntimeError, "Set changed size during iteration"));
                            }
                        }
                    }
                }
                if self.index >= clen {
                    return Ok(None);
                }
                let item = container_item_bits(heap.get(id), self.index);
                let item = retain(item, heap);
                self.index = self.index + 1;
                Ok(Some(item))
            },
        }
    }
}

/// How many values an iterator in state (`it`, `index`) yields before it is
/// exhausted, provided no dict or set it walks has changed size.
pub open spec fn count_items(it: IterValue, index: usize, heap: HeapView) -> int {
    match it {
        IterValue::Range { len, .. } => if index < len { len - index } else { 0 },
        IterValue::IterStr { chars } => if index < chars@.len() { chars@.len() - index } else { 0 },
        IterValue::HeapRef { heap_id, len, .. } => {
            let d = heap.data(heap_id);
            let end = match len {
                Some(l) => if l < container_len(d) { l as int } else { container_len(d) },
                None => container_len(d),
            };
            if !heap.live(heap_id) || !is_indexed_container(d) || index >= end { 0 } else { end - index }
        },
    }
}

/// Whether iterating from state (`it`, `index`) stops with the RuntimeError for a dict
/// or set that changed size.
pub open spec fn fails_changed_size(it: IterValue, index: usize, heap: HeapView) -> bool {
    match it {
        IterValue::HeapRef { heap_id, len, checks_mutation } => {
            let d = heap.data(heap_id);
            heap.live(heap_id) && is_indexed_container(d) && checks_mutation && (len matches Some(l)
                && index < l && container_len(d) != l)
        },
        _ => false,
    }
}

/// Whether `v` is the `k`-th value (counting from 0) yielded from state (`it`, `index`).
pub open spec fn is_nth_item(v: Value, it: IterValue, index: usize, heap: HeapView, k: int) -> bool {
    match it {
        IterValue::Range { next, step, .. } => v == Value::Int((next + k * step) as i64),
        IterValue::IterStr { chars } => v matches Value::Str(s) && s@ == seq![chars@[index + k]],
        IterValue::HeapRef { heap_id, .. } => v == container_item(heap.data(heap_id), index + k),
    }
}

impl MontyIter {
    /// The number of values left, for sizing buffers: the captured length (or the
    /// list's current length) minus the values already yielded, at least zero.
    pub fn size_hint(&self, heap: &Heap) -> (r: usize)
        requires
            self.ok(heap@),
        ensures
            r == if self.remaining(heap@) < 0 { 0 } else { self.remaining(heap@) },
    {
        let len = match &self.iter_value {
            IterValue::Range { len, .. } => *len,
            IterValue::IterStr { chars } => chars.len(),
            IterValue::HeapRef { heap_id, len, .. } => match len {
                Some(l) => *l,
                None => container_length(heap.get(*heap_id)),
            },
        };
        if len >= self.index { len - self.index } else { 0 }
    }

    /// Collects every remaining value into a vector, consuming the iterator and
    /// releasing what it holds. Fails with RuntimeError when a dict or set being
    /// iterated has changed size.
    pub fn collect(self, heap: &mut Heap) -> (r: Result<Vec<Value>, RunError>)
        requires
            old(heap).wf(),
            self.ok(old(heap)@),
        ensures
            final(heap).wf(),
            match r {
                Ok(items) => !fails_changed_size(self.data_spec(), self.index_spec(), old(heap)@)
                    && items@.len() == count_items(self.data_spec(), self.index_spec(), old(heap)@)
                    && forall|k: int| 0 <= k < items@.len() ==> is_nth_item(#[trigger] items@[k], self.data_spec(), self.index_spec(), old(heap)@, k),
                Err(e) => fails_changed_size(self.data_spec(), self.index_spec(), old(heap)@)
                    && e.exc_type == ExcType::RuntimeError,
            },
    {
        let mut it = self;
        let r = it.collect_remaining(heap);
        it.drop_with_heap(heap);
        r
    }

    /// Collects every remaining value into a vector, leaving the iterator exhausted
    /// (or stopped at the error). Fails with RuntimeError when a dict or set being
    /// iterated has changed size.
    pub fn collect_remaining(&mut self, heap: &mut Heap) -> (r: Result<Vec<Value>, RunError>)
        requires
            old(heap).wf(),
            old(self).ok(old(heap)@),
        ensures
            final(heap).wf(),
            same_objects(old(heap)@, final(heap)@),
            final(self).value_spec() == old(self).value_spec(),
            match r {
                Ok(items) => !fails_changed_size(old(self).data_spec(), old(self).index_spec(), old(heap)@)
                    && items@.len() == count_items(old(self).data_spec(), old(self).index_spec(), old(heap)@)
                    && forall|k: int| 0 <= k < items@.len() ==> is_nth_item(#[trigger] items@[k], old(self).data_spec(), old(self).index_spec(), old(heap)@, k),
                Err(e) => fails_changed_size(old(self).data_spec(), old(self).index_spec(), old(heap)@)
                    && e.exc_type == ExcType::RuntimeError,
            },
    {
        let ghost it0 = self.data_spec();
        let ghost i0 = self.index_spec();
        let ghost v0 = self.value_spec();
        let ghost h0 = heap@;
        let mut items: Vec<Value> = Vec::new();
        loop
            invariant
                h0 == old(heap)@,
                it0 == old(self).data_spec(),
                i0 == old(self).index_spec(),
                v0 == old(self).value_spec(),
                self.value_spec() == v0,
                heap.wf(),
                same_objects(h0, heap@),
                self.ok(heap@),
                self.index_spec() >= i0,
                items@.len() == self.index_spec() - i0,
                items@.len() <= count_items(it0, i0, h0),
                forall|k: int| 0 <= k < items@.len() ==> is_nth_item(#[trigger] items@[k], it0, i0, h0, k),
                count_items(self.data_spec(), self.index_spec(), heap@) == count_items(it0, i0, h0) - items@.len(),
                fails_changed_size(self.data_spec(), self.index_spec(), heap@) == fails_changed_size(it0, i0, h0),
                match (it0, self.data_spec()) {
                    (IterValue::Range { next, step, len }, IterValue::Range { next: n2, step: s2, len: l2 }) =>
                        s2 == step && l2 == len && (items@.len() < count_items(it0, i0, h0) ==> n2 == next + items@.len() * step),
                    (IterValue::IterStr { chars }, IterValue::IterStr { chars: c2 }) => c2@ == chars@,
                    (IterValue::HeapRef { heap_id, len, checks_mutation }, IterValue::HeapRef { heap_id: h2, len: l2, checks_mutation: c2 }) =>
                        h2 == heap_id && l2 == len && c2 == checks_mutation,
                    _ => false,
                },
            decreases count_items(self.data_spec(), self.index_spec(), heap@),
        {
            let ghost before = heap@;
            let ghost n_before = items@.len();
            let ghost d_before = self.data_spec();
            let ghost idx_before = self.index_spec();
            proof {
                if let IterValue::Range { next: cur, step: st, len: l } = d_before {
                    if n_before + 1 < count_items(it0, i0, h0) {
                        assert(1 < l - idx_before);
                        assert(i64::MIN <= cur + 1 * st <= i64::MAX);
                    }
                }
            }
            let got = self.for_next(heap);
            proof {
                crate::heap::lemma_same_objects_trans(h0, before, heap@);
            }
            match got {
                Ok(Some(v)) => {
                    items.push(v);
                    proof {
                        let k = n_before as int;
                        match it0 {
                            IterValue::Range { next, step, len } => {
                                assert(items@[k] == Value::Int((next + k * step) as i64));
                                assert(next + (k + 1) * step == next + k * step + step) by (nonlinear_arith);
                            },
                            _ => {},
                        }
                    }
                },
                Ok(None) => {
                    return Ok(items);
                },
                Err(e) => {
                    return Err(e);
                },
            }
        }
    }
}

/// The values that iterating `v` from the start yields, in order: the characters of
/// a string as one-character strings, the values of a range, and the elements of a
/// container (the keys of a dict, the bytes of a bytes object as ints).
pub open spec fn yields(v: Value, heap: HeapView, items: Seq<Value>) -> bool {
    match v {
        Value::Str(s) => items.len() == s@.len() && forall|k: int| 0 <= k < items.len() ==>
            (#[trigger] items[k] matches Value::Str(t) && t@ == seq![s@[k]]),
        Value::Ref(id) => match heap.data(id) {
            HeapData::Range(rg) => items.len() == crate::range::sat_len(rg.len_spec()) && forall|k: int| 0 <= k < items.len() ==>
                #[trigger] items[k] == Value::Int((rg.start + k * rg.step) as i64),
            d => items.len() == container_len(d) && forall|k: int| 0 <= k < items.len() ==>
                #[trigger] items[k] == container_item(d, k),
        },
        _ => false,
    }
}

/// What an iterable yields stays the same back on a heap from which only other
/// objects were freed since.
pub proof fn lemma_yields_after_frees(v: Value, a: HeapView, b: HeapView, items: Seq<Value>)
    requires
        crate::heap::only_frees(a, b),
        iterable_spec(v, b),
        yields(v, b, items),
    ensures
        yields(v, a, items),
{
    if let Value::Ref(id) = v {
        assert(b.live(id));
    }
}

/// Starts iterating `value` and collects everything it yields, returning the
/// iterator (which still holds `value` when it is a container) with the values.
/// TypeError when the value is not iterable (the value is released).
pub fn iterate(value: Value, heap: &mut Heap) -> (r: Result<(MontyIter, Vec<Value>), RunError>)
    requires
        old(heap).wf(),
    ensures
        final(heap).wf(),
        final(heap)@.slots.len() == old(heap)@.slots.len(),
        crate::heap::only_frees(old(heap)@, final(heap)@),
        (r is Ok) == iterable_spec(value, old(heap)@),
        r matches Err(e) ==> is_error(e, ExcType::TypeError, not_iterable_message(type_str_spec(py_type_spec(value, old(heap)@)))),
        r matches Ok((it, items)) ==> {
            &&& yields(value, old(heap)@, items@)
            &&& crate::heap::all_agree(items@, old(heap)@, final(heap)@)
        },
{
    let ghost h0 = heap@;
    let mut it = match MontyIter::new(value, heap) {
        Ok(it) => it,
        Err(e) => return Err(e),
    };
    let ghost h1 = heap@;
    let ghost d = it.data_spec();
    match it.collect_remaining(heap) {
        Ok(items) => {
            proof {
                match d {
                    IterValue::Range { next, step, len } => {
                        assert forall|k: int| 0 <= k < items@.len() implies crate::heap::agrees(#[trigger] items@[k], h0, heap@) by {
                            assert(is_nth_item(items@[k], d, 0, h1, k));
                        }
                    },
                    IterValue::IterStr { chars } => {
                        assert forall|k: int| 0 <= k < items@.len() implies crate::heap::agrees(#[trigger] items@[k], h0, heap@) by {
                            assert(is_nth_item(items@[k], d, 0, h1, k));
                        }
                        assert forall|k: int| 0 <= k < items@.len() implies
                            (#[trigger] items@[k] matches Value::Str(t) && t@ == seq![chars@[k]]) by {
                            assert(is_nth_item(items@[k], d, 0, h1, k));
                        }
                    },
                    IterValue::HeapRef { heap_id, len, .. } => {
                        assert forall|k: int| 0 <= k < items@.len() implies crate::heap::agrees(#[trigger] items@[k], h0, heap@) by {
                            let v = items@[k];
                            if let Value::Ref(j) = v {
                                assert(h0.live(j) == heap@.live(j));
                            }
                        }
                        assert forall|k: int| 0 <= k < items@.len() implies #[trigger] items@[k] == container_item(h0.data(heap_id), k) by {
                            assert(is_nth_item(items@[k], d, 0, h1, k));
                        }
                    },
                }
                assert forall|j: HeapId| #[trigger] heap@.live(j) implies h0.live(j) && heap@.data(j) == h0.data(j) by {
                    assert(h1.live(j));
                }
            }
            Ok((it, items))
        },
        Err(e) => {
            proof {
                assert(false);
            }
            it.drop_with_heap(heap);
            Err(e)
        },
    }
}

/// `"iter(callable, sentinel) is not yet supported"`.
pub open spec fn sentinel_message() -> Seq<char> {
    "iter(callable, sentinel) is not yet supported"@
}

/// Whether `v` refers to an iterator object on the heap.
pub open spec fn is_iterator_ref(v: Value, heap: HeapView) -> bool {
    v matches Value::Ref(id) && heap.live(id) && heap.data(id) is Iter
}

impl MontyIter {
    /// `iter(obj)`: `obj` itself when it is already an iterator, else a new iterator
    /// over it, stored on the heap. The two-argument form is not supported.
    pub fn init(args: ArgValues, heap: &mut Heap) -> (r: Result<Value, RunError>)
        requires
            old(heap).wf(),
        ensures
            final(heap).wf(),
            if args.kwargs@.len() > 0 {
                r matches Err(e) && is_error(e, ExcType::TypeError, no_kwargs_message("iter"@))
            } else if args.positional@.len() == 0 {
                r matches Err(e) && is_error(e, ExcType::TypeError, at_least_message("iter"@, 1, 0))
            } else if args.positional@.len() > 2 {
                r matches Err(e) && is_error(e, ExcType::TypeError, at_most_message("iter"@, 2, args.positional@.len() as int))
            } else if args.positional@.len() == 2 {
                r matches Err(e) && is_error(e, ExcType::TypeError, sentinel_message())
            } else if is_iterator_ref(args.positional@[0], old(heap)@) {
                r == Ok::<Value, RunError>(args.positional@[0]) && final(heap)@ == old(heap)@
            } else if !iterable_spec(args.positional@[0], old(heap)@) {
                r matches Err(e) && is_error(e, ExcType::TypeError, not_iterable_message(type_str_spec(py_type_spec(args.positional@[0], old(heap)@))))
            } else {
                ||| (r matches Ok(Value::Ref(id)) && final(heap)@.live(id) && (final(heap)@.data(id) matches HeapData::Iter(it)
                        && it.index_spec() == 0 && it.ok(final(heap)@)))
                ||| (r matches Err(e) && e.exc_type == ExcType::MemoryError && old(heap)@.slots.len() >= usize::MAX)
            },
            r matches Err(e) && e.exc_type == ExcType::TypeError ==> crate::heap::args_released(old(heap)@, final(heap)@, args.positional@, args.kwargs@),
    {
        let (iterable, sentinel) = args.get_one_two_args("iter", heap)?;
        proof {
            crate::heap::lemma_dropped_none(old(heap)@, crate::heap::pair_values(args.kwargs@));
        }
        if let Some(s) = sentinel {
            let ghost h0 = heap@;
            let ghost sv = s;
            let ghost iv = iterable;
            s.drop_with_heap(heap);
            let ghost h1 = heap@;
            iterable.drop_with_heap(heap);
            proof {
                let vs = args.positional@;
                assert(vs =~= seq![iv, sv]);
                crate::heap::lemma_dropped_none(h0, vs);
                crate::heap::lemma_dropped_step(h0, h0, h1, vs, 1);
                crate::heap::lemma_dropped_step(h0, h1, heap@, vs, 0);
                assert(crate::heap::dropped_from(old(heap)@, heap@, args.positional@, 0) && crate::heap::pairs_dropped_from(heap@, heap@, args.kwargs@, 0)) by {
                    crate::heap::lemma_dropped_none(heap@, crate::heap::pair_values(args.kwargs@));
                    assert(crate::heap::pair_values(args.kwargs@).len() == 0);
                }
            }
            return Err(RunError::from_str(ExcType::TypeError, "iter(callable, sentinel) is not yet supported"));
        }
        if let Value::Ref(id) = &iterable {
            if heap.is_live(*id) {
                if let HeapData::Iter(_) = heap.get(*id) {
                    return Ok(iterable);
                }
            }
        }
        let ghost h0 = heap@;
        let ghost iv = iterable;
        let it = match MontyIter::new(iterable, heap) {
            Ok(it) => it,
            Err(e) => {
                proof {
                    crate::heap::lemma_released_one(h0, heap@, iv);
                    assert(args.positional@ =~= seq![iv]);
                    crate::heap::lemma_dropped_none(heap@, crate::heap::pair_values(args.kwargs@));
                    assert(crate::heap::pair_values(args.kwargs@).len() == 0);
                    assert(crate::heap::dropped_from(old(heap)@, heap@, args.positional@, 0) && crate::heap::pairs_dropped_from(heap@, heap@, args.kwargs@, 0));
                }
                return Err(e);
            },
        };
        let ghost h1 = heap@;
        let id = heap.allocate(HeapData::Iter(it))?;
        proof {
            lemma_ok_extends(it, h1, heap@);
        }
        Ok(Value::Ref(id))
    }
}

/// An iterator consistent with a heap stays consistent with a heap that keeps every
/// live object as it is.
proof fn lemma_ok_extends(it: MontyIter, a: HeapView, b: HeapView)
    requires
        it.ok(a),
        forall|j: HeapId| #[trigger] a.live(j) ==> b.live(j) && b.data(j) == a.data(j),
    ensures
        it.ok(b),
{
    if let IterValue::HeapRef { heap_id, .. } = it.data_spec() {
        assert(a.live(heap_id));
    }
}

/// The iteration state stored at `iter_id`.
spec fn it_data_before(h: HeapView, iter_id: HeapId) -> (IterValue, usize) {
    (h.data(iter_id)->Iter_0.data_spec(), h.data(iter_id)->Iter_0.index_spec())
}

/// One step of an iterator gives the same result whether or not its own heap slot
/// holds something else that is not a container, since it cannot be walking itself.
proof fn lemma_step_result_swap(st: (IterValue, usize), h0: HeapView, h1: HeapView, iter_id: HeapId, r: Result<Option<Value>, RunError>)
    requires
        h0.live(iter_id),
        h0.data(iter_id) is Iter,
        h1.live(iter_id),
        !is_indexed_container(h1.data(iter_id)),
        h1.slots.len() == h0.slots.len(),
        forall|j: int| 0 <= j < h0.slots.len() && j != iter_id ==> #[trigger] h1.slots[j] == h0.slots[j],
        step_result(st.0, st.1, h1, r),
    ensures
        step_result(st.0, st.1, h0, r),
{
    if let IterValue::HeapRef { heap_id, .. } = st.0 {
        if heap_id != iter_id && heap_id < h0.slots.len() {
            assert(h1.slots[heap_id as int] == h0.slots[heap_id as int]);
        }
    }
}

/// Advances the iterator stored on the heap at `iter_id`: yields its next value, or
/// `None` when it is exhausted; RuntimeError when a dict or set it walks has changed
/// size. The stored iterator moves on by one exactly when a value is yielded.
pub fn advance(iter_id: HeapId, heap: &mut Heap) -> (r: Result<Option<Value>, RunError>)
    requires
        old(heap).wf(),
        is_iterator_ref(Value::Ref(iter_id), old(heap)@),
    ensures
        final(heap).wf(),
        ({
            let it = old(heap)@.data(iter_id)->Iter_0;
            &&& step_result(it.data_spec(), it.index_spec(), old(heap)@, r)
            &&& final(heap)@.live(iter_id)
            &&& final(heap)@.data(iter_id) matches HeapData::Iter(it2)
            &&& it2.value_spec() == it.value_spec()
            &&& it2.index_spec() == if r matches Ok(Some(_)) { it.index_spec() + 1 } else { it.index_spec() as int }
            &&& stepped_data(it.data_spec(), it2.data_spec(), r)
        }),
{
    let ghost h0 = heap@;
    let mut tmp = HeapData::Range(Range { start: 0, stop: 0, step: 1 });
    core::mem::swap(heap.data_mut(iter_id), &mut tmp);
    let ghost h1 = heap@;
    match tmp {
        HeapData::Iter(mut it) => {
            let r = it.for_next(heap);
            proof {
                lemma_step_result_swap(it_data_before(h0, iter_id), h0, h1, iter_id, r);
                assert(h1.live(iter_id));
                assert(heap@.live(iter_id));
            }
            heap.set_data(iter_id, HeapData::Iter(it));
            r
        },
        _ => {
            proof {
                assert(false);
            }
            Ok(None)
        },
    }
}

/// `"'{t}' object is not an iterator"`.
pub open spec fn not_iterator_message(t: Seq<char>) -> Seq<char> {
    "'"@ + t + "' object is not an iterator"@
}

/// `next(iterator[, default])`: the iterator's next value; when it is exhausted, the
/// default, or StopIteration without one. TypeError when the value is not an
/// iterator. A default that is not given back is released.
pub fn iterator_next(iter_value: &Value, default: Option<Value>, heap: &mut Heap) -> (r: Result<Value, RunError>)
    requires
        old(heap).wf(),
    ensures
        final(heap).wf(),
        match *iter_value {
            Value::Ref(id) => if is_iterator_ref(*iter_value, old(heap)@) {
                let it = old(heap)@.data(id)->Iter_0;
                &&& match r {
                    Ok(v) => step_result(it.data_spec(), it.index_spec(), old(heap)@, Ok(Some(v)))
                        || (step_result(it.data_spec(), it.index_spec(), old(heap)@, Ok(None)) && default == Some(v)),
                    Err(e) => step_result(it.data_spec(), it.index_spec(), old(heap)@, Err(e))
                        || (step_result(it.data_spec(), it.index_spec(), old(heap)@, Ok(None)) && default is None
                            && e.exc_type == ExcType::StopIteration),
                }
                &&& !(default matches Some(Value::Ref(_))) ==> {
                    &&& final(heap)@.live(id)
                    &&& final(heap)@.data(id) matches HeapData::Iter(it2)
                    &&& it2.value_spec() == it.value_spec()
                    &&& it.index_spec() <= it2.index_spec() <= it.index_spec() + 1
                    &&& default is None && r is Ok ==> it2.index_spec() == it.index_spec() + 1
                        && stepped_data(it.data_spec(), it2.data_spec(), Ok(Some(r->Ok_0)))
                    &&& r is Err ==> it2.index_spec() == it.index_spec()
                }
                &&& default matches Some(d) ==> exists|m: HeapView| {
                    &&& #[trigger] m.live(id)
                    &&& m.data(id) matches HeapData::Iter(it2)
                    &&& it2.value_spec() == it.value_spec()
                    &&& it2.index_spec() == (if r is Ok && !step_result(it.data_spec(), it.index_spec(), old(heap)@, Ok(None)) {
                        it.index_spec() + 1
                    } else {
                        it.index_spec() as int
                    })
                    &&& if step_result(it.data_spec(), it.index_spec(), old(heap)@, Ok(None)) {
                        final(heap)@ == m
                    } else {
                        value_released(m, final(heap)@, d)
                    }
                }
            } else {
                &&& r matches Err(e) && is_error(e, ExcType::TypeError, not_iterator_message(type_str_spec(py_type_spec(*iter_value, old(heap)@))))
                &&& match default {
                    Some(d) => value_released(old(heap)@, final(heap)@, d),
                    None => final(heap)@ == old(heap)@,
                }
            },
            _ => {
                &&& r matches Err(e) && is_error(e, ExcType::TypeError, not_iterable_message(type_str_spec(py_type_spec(*iter_value, old(heap)@))))
                &&& match default {
                    Some(d) => value_released(old(heap)@, final(heap)@, d),
                    None => final(heap)@ == old(heap)@,
                }
            },
        },
{
    let id = match iter_value {
        Value::Ref(id) => *id,
        _ => {
            let e = type_error_not_iterable(type_str(py_type(iter_value, heap)));
            crate::value::drop_option(default, heap);
            return Err(e);
        },
    };
    let is_iter = heap.is_live(id) && match heap.get(id) {
        HeapData::Iter(_) => true,
        _ => false,
    };
    if !is_iter {
        let mut m = str_to_string("'");
        push_str(&mut m, type_str(py_type(iter_value, heap)));
        push_str(&mut m, "' object is not an iterator");
        crate::value::drop_option(default, heap);
        return Err(RunError { exc_type: ExcType::TypeError, message: m });
    }
    let ghost h0 = heap@;
    let step = advance(id, heap);
    let ghost hm = heap@;
    proof {
        assert(hm.live(id));
    }
    match step {
        Ok(Some(v)) => {
            crate::value::drop_option(default, heap);
            Ok(v)
        },
        Ok(None) => match default {
            Some(d) => Ok(d),
            None => Err(RunError::from_str(ExcType::StopIteration, "")),
        },
        Err(e) => {
            crate::value::drop_option(default, heap);
            Err(e)
        },
    }
}

/// `a.wrapping_add(b)` on `i64`.
fn wrapping_add_i64(a: i64, b: i64) -> (r: i64)
    ensures
        i64::MIN <= a + b <= i64::MAX ==> r == a + b,
{
    let t = (a as i128) + (b as i128);
    if t > i64::MAX as i128 {
        (t - 0x1_0000_0000_0000_0000i128) as i64
    } else if t < i64::MIN as i128 {
        (t + 0x1_0000_0000_0000_0000i128) as i64
    } else {
        t as i64
    }
}

/// Takes one more reference to the heap object a value holds, if any.
fn retain(v: Value, heap: &mut Heap) -> (r: Value)
    requires
        old(heap).wf(),
    ensures
        r == v,
        final(heap).wf(),
        same_objects(old(heap)@, final(heap)@),
        crate::heap::retained(old(heap)@, final(heap)@, v),
{
    let r = v.clone_with_heap(heap);
    r
}

/// Iterating a dict yields its keys: one step at a position within the dict gives the
/// key of the entry there (the first of the pair), never its value.
pub proof fn law_dict_step_yields_key(heap: HeapView, heap_id: HeapId, p: Vec<(Value, Value)>, index: usize, len: Option<usize>, checks_mutation: bool, r: Result<Option<Value>, RunError>)
    requires
        heap.live(heap_id),
        heap.data(heap_id) == HeapData::Dict(p),
        index < p@.len(),
        len matches Some(l) ==> l == p@.len(),
        step_result(IterValue::HeapRef { heap_id, len, checks_mutation }, index, heap, r),
    ensures
        r == Ok::<Option<Value>, RunError>(Some(p@[index as int].0)),
{
}

/// Everything a dict yields, in order, is its keys: `list(d)` holds the key of each
/// entry, one per entry, and no value.
pub proof fn law_dict_yields_keys(heap: HeapView, heap_id: HeapId, p: Vec<(Value, Value)>, items: Seq<Value>)
    requires
        heap.data(heap_id) == HeapData::Dict(p),
        yields(Value::Ref(heap_id), heap, items),
    ensures
        items.len() == p@.len(),
        forall|k: int| 0 <= k < items.len() ==> #[trigger] items[k] == p@[k].0,
{
}

/// Iterating a container or a range yields its items in order: a list, tuple, set or
/// frozenset its elements, bytes each byte as an int, and a range `start`,
/// `start + step`, ... as many values as the range holds; a string yields its
/// characters one by one.
pub proof fn law_iteration_yields_in_order(v: Value, heap: HeapView, items: Seq<Value>)
    requires
        yields(v, heap, items),
    ensures
        v matches Value::Str(s) ==> items.len() == s@.len()
            && forall|k: int| 0 <= k < items.len() ==> (#[trigger] items[k] matches Value::Str(t) && t@ == seq![s@[k]]),
        v matches Value::Ref(id) ==> match heap.data(id) {
            HeapData::List(e) | HeapData::Tuple(e) | HeapData::PySet(e) | HeapData::FrozenSet(e) => items == e@,
            HeapData::Bytes(b) => items.len() == b@.len() && forall|k: int| 0 <= k < items.len() ==> #[trigger] items[k] == Value::Int(b@[k] as i64),
            HeapData::Range(rg) => items.len() == crate::range::sat_len(rg.len_spec())
                && forall|k: int| 0 <= k < items.len() ==> #[trigger] items[k] == Value::Int((rg.start + k * rg.step) as i64),
            _ => true,
        },
{
    if let Value::Ref(id) = v {
        match heap.data(id) {
            HeapData::List(e) | HeapData::Tuple(e) | HeapData::PySet(e) | HeapData::FrozenSet(e) => {
                assert(items =~= e@);
            },
            _ => {},
        }
    }
}

} // verus!
